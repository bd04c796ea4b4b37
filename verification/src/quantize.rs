//! The quantizer: picks the glyph and the two representative colors of one
//! output cell from its four quadrant colors.
//!
//! The four quadrant colors are split into an "on" and an "off" cluster by
//! trying every bipartition that keeps the top-left quadrant on — seven in
//! all, each bipartition and its mirror counted once — and keeping the one
//! whose two cluster mean colors lie farthest apart under the sum of squared
//! per-channel differences. Ties keep the bipartition tried first, in the
//! fixed ascending mask order, so the choice is reproducible. The top-left
//! quadrant's cluster becomes the foreground; the other becomes the
//! background. Four identical quadrant colors yield the fully-on glyph with
//! both colors set to that color.

use crate::rgb::Rgb;
use vstd::prelude::*;

verus! {

/// One output terminal cell: the on-quadrant mask of its glyph, the
/// foreground color of the on quadrants and the background color of the off
/// quadrants.
#[derive(Clone, Copy, Debug, PartialEq, Eq, Structural)]
pub struct GlyphCell {
    pub quads: u8,
    pub fg: Rgb,
    pub bg: Rgb,
}

impl GlyphCell {
    /// The mask names a glyph of the fixed set.
    pub open spec fn wf(self) -> bool {
        self.quads < 16
    }
}

/// The squared color distance: the sum of squared per-channel differences.
pub open spec fn dist2(a: Rgb, b: Rgb) -> int {
    (a.r - b.r) * (a.r - b.r) + (a.g - b.g) * (a.g - b.g) + (a.b - b.b) * (a.b - b.b)
}

/// The per-channel mean of two colors.
pub open spec fn mean2(a: Rgb, b: Rgb) -> Rgb {
    Rgb {
        r: ((a.r + b.r) / 2) as u8,
        g: ((a.g + b.g) / 2) as u8,
        b: ((a.b + b.b) / 2) as u8,
    }
}

/// The per-channel mean of three colors.
pub open spec fn mean3(a: Rgb, b: Rgb, c: Rgb) -> Rgb {
    Rgb {
        r: ((a.r + b.r + c.r) / 3) as u8,
        g: ((a.g + b.g + c.g) / 3) as u8,
        b: ((a.b + b.b + c.b) / 3) as u8,
    }
}

/// The mean color of the on cluster of a bipartition mask. The quadrant
/// colors are top-left, top-right, bottom-left, bottom-right; every tried
/// mask keeps the top-left quadrant on.
pub open spec fn on_mean(m: int, c0: Rgb, c1: Rgb, c2: Rgb, c3: Rgb) -> Rgb {
    if m == 1 {
        c0
    } else if m == 3 {
        mean2(c0, c1)
    } else if m == 5 {
        mean2(c0, c2)
    } else if m == 7 {
        mean3(c0, c1, c2)
    } else if m == 9 {
        mean2(c0, c3)
    } else if m == 11 {
        mean3(c0, c1, c3)
    } else {
        mean3(c0, c2, c3)
    }
}

/// The mean color of the off cluster of a bipartition mask.
pub open spec fn off_mean(m: int, c0: Rgb, c1: Rgb, c2: Rgb, c3: Rgb) -> Rgb {
    if m == 1 {
        mean3(c1, c2, c3)
    } else if m == 3 {
        mean2(c2, c3)
    } else if m == 5 {
        mean2(c1, c3)
    } else if m == 7 {
        c3
    } else if m == 9 {
        mean2(c1, c2)
    } else if m == 11 {
        c2
    } else {
        c1
    }
}

/// How far apart a bipartition's two cluster means lie.
pub open spec fn score(m: int, c0: Rgb, c1: Rgb, c2: Rgb, c3: Rgb) -> int {
    dist2(on_mean(m, c0, c1, c2, c3), off_mean(m, c0, c1, c2, c3))
}

/// The mask with the strictly better score, keeping the current one on a
/// tie.
pub open spec fn better(m_new: int, m_cur: int, c0: Rgb, c1: Rgb, c2: Rgb, c3: Rgb) -> int {
    if score(m_new, c0, c1, c2, c3) > score(m_cur, c0, c1, c2, c3) {
        m_new
    } else {
        m_cur
    }
}

/// The bipartition chosen for four quadrant colors: the first mask, in the
/// fixed order 1, 3, 5, 7, 9, 11, 13, whose score no later mask beats.
pub open spec fn best_mask(c0: Rgb, c1: Rgb, c2: Rgb, c3: Rgb) -> int {
    let b3 = better(3, 1, c0, c1, c2, c3);
    let b5 = better(5, b3, c0, c1, c2, c3);
    let b7 = better(7, b5, c0, c1, c2, c3);
    let b9 = better(9, b7, c0, c1, c2, c3);
    let b11 = better(11, b9, c0, c1, c2, c3);
    better(13, b11, c0, c1, c2, c3)
}

/// What the quantizer returns for the four quadrant colors of one cell.
pub open spec fn quantize_spec(c0: Rgb, c1: Rgb, c2: Rgb, c3: Rgb) -> GlyphCell {
    if c0 == c1 && c1 == c2 && c2 == c3 {
        GlyphCell { quads: 15, fg: c0, bg: c0 }
    } else {
        let m = best_mask(c0, c1, c2, c3);
        GlyphCell {
            quads: m as u8,
            fg: on_mean(m, c0, c1, c2, c3),
            bg: off_mean(m, c0, c1, c2, c3),
        }
    }
}

/// The chosen bipartition is one of the seven tried masks.
pub proof fn lemma_best_mask_valid(c0: Rgb, c1: Rgb, c2: Rgb, c3: Rgb)
    ensures
        1 <= best_mask(c0, c1, c2, c3) <= 13,
        best_mask(c0, c1, c2, c3) % 2 == 1,
{
    let b3 = better(3, 1, c0, c1, c2, c3);
    assert(b3 == 3 || b3 == 1);
    let b5 = better(5, b3, c0, c1, c2, c3);
    assert(b5 == 5 || b5 == b3);
    let b7 = better(7, b5, c0, c1, c2, c3);
    assert(b7 == 7 || b7 == b5);
    let b9 = better(9, b7, c0, c1, c2, c3);
    assert(b9 == 9 || b9 == b7);
    let b11 = better(11, b9, c0, c1, c2, c3);
    assert(b11 == 11 || b11 == b9);
    let b13 = better(13, b11, c0, c1, c2, c3);
    assert(b13 == 13 || b13 == b11);
    assert(best_mask(c0, c1, c2, c3) == b13);
}


/// A mask the quantizer tries: one of the seven bipartitions that keep the
/// top-left quadrant on.
pub open spec fn tried_mask(m: int) -> bool {
    m == 1 || m == 3 || m == 5 || m == 7 || m == 9 || m == 11 || m == 13
}

/// The chosen bipartition maximizes the distance between its two cluster
/// means, and a tie keeps the bipartition tried first: every mask tried
/// before the chosen one scores strictly less.
pub proof fn lemma_best_mask_maximal(c0: Rgb, c1: Rgb, c2: Rgb, c3: Rgb)
    ensures
        forall|m: int|
            tried_mask(m) ==> score(m, c0, c1, c2, c3) <= score(
                best_mask(c0, c1, c2, c3),
                c0,
                c1,
                c2,
                c3,
            ),
        forall|m: int|
            tried_mask(m) && m < best_mask(c0, c1, c2, c3) ==> score(m, c0, c1, c2, c3) < score(
                best_mask(c0, c1, c2, c3),
                c0,
                c1,
                c2,
                c3,
            ),
{
    let b3 = better(3, 1, c0, c1, c2, c3);
    let b5 = better(5, b3, c0, c1, c2, c3);
    let b7 = better(7, b5, c0, c1, c2, c3);
    let b9 = better(9, b7, c0, c1, c2, c3);
    let b11 = better(11, b9, c0, c1, c2, c3);
    let b13 = better(13, b11, c0, c1, c2, c3);
    assert(best_mask(c0, c1, c2, c3) == b13);
}

fn mean2_exec(a: Rgb, b: Rgb) -> (c: Rgb)
    ensures
        c == mean2(a, b),
{
    Rgb {
        r: (((a.r as u16) + (b.r as u16)) / 2) as u8,
        g: (((a.g as u16) + (b.g as u16)) / 2) as u8,
        b: (((a.b as u16) + (b.b as u16)) / 2) as u8,
    }
}

fn mean3_exec(a: Rgb, b: Rgb, c: Rgb) -> (m: Rgb)
    ensures
        m == mean3(a, b, c),
{
    Rgb {
        r: (((a.r as u16) + (b.r as u16) + (c.r as u16)) / 3) as u8,
        g: (((a.g as u16) + (b.g as u16) + (c.g as u16)) / 3) as u8,
        b: (((a.b as u16) + (b.b as u16) + (c.b as u16)) / 3) as u8,
    }
}

fn dist2_exec(a: Rgb, b: Rgb) -> (d: i32)
    ensures
        d == dist2(a, b),
{
    let dr = (a.r as i32) - (b.r as i32);
    let dg = (a.g as i32) - (b.g as i32);
    let db = (a.b as i32) - (b.b as i32);
    proof {
        assert(0 <= dr * dr <= 65025 && 0 <= dg * dg <= 65025 && 0 <= db * db
            <= 65025) by (nonlinear_arith)
            requires
                -255 <= dr <= 255,
                -255 <= dg <= 255,
                -255 <= db <= 255,
        ;
    }
    dr * dr + dg * dg + db * db
}

fn on_mean_exec(m: u8, c0: Rgb, c1: Rgb, c2: Rgb, c3: Rgb) -> (c: Rgb)
    requires
        1 <= m <= 13,
        m % 2 == 1,
    ensures
        c == on_mean(m as int, c0, c1, c2, c3),
{
    if m == 1 {
        c0
    } else if m == 3 {
        mean2_exec(c0, c1)
    } else if m == 5 {
        mean2_exec(c0, c2)
    } else if m == 7 {
        mean3_exec(c0, c1, c2)
    } else if m == 9 {
        mean2_exec(c0, c3)
    } else if m == 11 {
        mean3_exec(c0, c1, c3)
    } else {
        mean3_exec(c0, c2, c3)
    }
}

fn off_mean_exec(m: u8, c0: Rgb, c1: Rgb, c2: Rgb, c3: Rgb) -> (c: Rgb)
    requires
        1 <= m <= 13,
        m % 2 == 1,
    ensures
        c == off_mean(m as int, c0, c1, c2, c3),
{
    if m == 1 {
        mean3_exec(c1, c2, c3)
    } else if m == 3 {
        mean2_exec(c2, c3)
    } else if m == 5 {
        mean2_exec(c1, c3)
    } else if m == 7 {
        c3
    } else if m == 9 {
        mean2_exec(c1, c2)
    } else if m == 11 {
        c2
    } else {
        c1
    }
}

fn score_exec(m: u8, c0: Rgb, c1: Rgb, c2: Rgb, c3: Rgb) -> (s: i32)
    requires
        1 <= m <= 13,
        m % 2 == 1,
    ensures
        s == score(m as int, c0, c1, c2, c3),
{
    dist2_exec(on_mean_exec(m, c0, c1, c2, c3), off_mean_exec(m, c0, c1, c2, c3))
}

/// Quantizes the four quadrant colors of one cell — top-left, top-right,
/// bottom-left, bottom-right — into a glyph and its two colors.
pub fn quantize(c0: Rgb, c1: Rgb, c2: Rgb, c3: Rgb) -> (cell: GlyphCell)
    ensures
        cell == quantize_spec(c0, c1, c2, c3),
        cell.wf(),
{
    if c0 == c1 && c1 == c2 && c2 == c3 {
        return GlyphCell { quads: 15, fg: c0, bg: c0 };
    }
    let mut best: u8 = 1;
    let mut best_score = score_exec(1, c0, c1, c2, c3);
    let s3 = score_exec(3, c0, c1, c2, c3);
    if s3 > best_score {
        best = 3;
        best_score = s3;
    }
    let s5 = score_exec(5, c0, c1, c2, c3);
    if s5 > best_score {
        best = 5;
        best_score = s5;
    }
    let s7 = score_exec(7, c0, c1, c2, c3);
    if s7 > best_score {
        best = 7;
        best_score = s7;
    }
    let s9 = score_exec(9, c0, c1, c2, c3);
    if s9 > best_score {
        best = 9;
        best_score = s9;
    }
    let s11 = score_exec(11, c0, c1, c2, c3);
    if s11 > best_score {
        best = 11;
        best_score = s11;
    }
    let s13 = score_exec(13, c0, c1, c2, c3);
    if s13 > best_score {
        best = 13;
        best_score = s13;
    }
    assert(best as int == best_mask(c0, c1, c2, c3));
    GlyphCell {
        quads: best,
        fg: on_mean_exec(best, c0, c1, c2, c3),
        bg: off_mean_exec(best, c0, c1, c2, c3),
    }
}

} // verus!
