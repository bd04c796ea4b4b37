//! The sampling half of the resampler: the representative color of each
//! quadrant of each sub-block.
//!
//! A quadrant's color is the arithmetic mean, per channel, of the source
//! pixels inside its rectangle. A quadrant with no pixels falls back to the
//! mean of its whole sub-block; a sub-block with no pixels falls back to the
//! pixel at the sub-block's anchor, the nearest pixel to its origin.

use crate::raster::Raster;
use crate::resample::{
    lemma_quad_in_cell, lemma_seg_full, lemma_seg_lt_len, lemma_seg_monotone, lemma_seg_zero,
    quad_hi, quad_lo, seg_start,
};
use crate::rgb::Rgb;
use vstd::arithmetic::div_mod::{lemma_div_is_ordered, lemma_div_multiples_vanish};
use vstd::arithmetic::mul::lemma_mul_upper_bound;
use vstd::prelude::*;

verus! {

/// One channel of a color: red, green or blue for 0, 1 or 2.
pub open spec fn chan(c: Rgb, ch: int) -> int {
    if ch == 0 {
        c.r as int
    } else if ch == 1 {
        c.g as int
    } else {
        c.b as int
    }
}

/// The sum of one channel over the pixels `x0 <= x < x1` of row `y`.
pub open spec fn row_sum(img: Raster, y: int, x0: int, x1: int, ch: int) -> int
    decreases x1 - x0,
{
    if x1 <= x0 {
        0
    } else {
        row_sum(img, y, x0, x1 - 1, ch) + chan(img.px(x1 - 1, y), ch)
    }
}

/// The sum of one channel over the pixel rectangle
/// `x0 <= x < x1`, `y0 <= y < y1`.
pub open spec fn rect_sum(img: Raster, x0: int, x1: int, y0: int, y1: int, ch: int) -> int
    decreases y1 - y0,
{
    if y1 <= y0 {
        0
    } else {
        rect_sum(img, x0, x1, y0, y1 - 1, ch) + row_sum(img, y1 - 1, x0, x1, ch)
    }
}

/// The per-channel arithmetic mean over a nonempty pixel rectangle.
pub open spec fn rect_mean(img: Raster, x0: int, x1: int, y0: int, y1: int) -> Rgb
    recommends
        x0 < x1,
        y0 < y1,
{
    let cnt = (x1 - x0) * (y1 - y0);
    Rgb {
        r: (rect_sum(img, x0, x1, y0, y1, 0) / cnt) as u8,
        g: (rect_sum(img, x0, x1, y0, y1, 1) / cnt) as u8,
        b: (rect_sum(img, x0, x1, y0, y1, 2) / cnt) as u8,
    }
}

/// The representative color of quadrant `(qx, qy)` of the sub-block at cell
/// `(cx, cy)`: the quadrant mean, else the sub-block mean, else the pixel at
/// the sub-block's anchor.
pub open spec fn quad_color_spec(
    img: Raster,
    cols: int,
    rows: int,
    cx: int,
    cy: int,
    qx: int,
    qy: int,
) -> Rgb {
    let xl = quad_lo(img.width as int, cols, cx, qx);
    let xh = quad_hi(img.width as int, cols, cx, qx);
    let yl = quad_lo(img.height as int, rows, cy, qy);
    let yh = quad_hi(img.height as int, rows, cy, qy);
    let cx0 = seg_start(img.width as int, cols, cx);
    let cx1 = seg_start(img.width as int, cols, cx + 1);
    let cy0 = seg_start(img.height as int, rows, cy);
    let cy1 = seg_start(img.height as int, rows, cy + 1);
    if xl < xh && yl < yh {
        rect_mean(img, xl, xh, yl, yh)
    } else if cx0 < cx1 && cy0 < cy1 {
        rect_mean(img, cx0, cx1, cy0, cy1)
    } else {
        img.px(cx0, cy0)
    }
}

/// A channel row sum is between zero and 255 per pixel.
pub proof fn lemma_row_sum_bound(img: Raster, y: int, x0: int, x1: int, ch: int)
    requires
        x0 <= x1,
    ensures
        0 <= row_sum(img, y, x0, x1, ch) <= 255 * (x1 - x0),
    decreases x1 - x0,
{
    if x1 > x0 {
        lemma_row_sum_bound(img, y, x0, x1 - 1, ch);
    }
}

/// A channel rectangle sum is between zero and 255 per pixel.
pub proof fn lemma_rect_sum_bound(img: Raster, x0: int, x1: int, y0: int, y1: int, ch: int)
    requires
        x0 <= x1,
        y0 <= y1,
    ensures
        0 <= rect_sum(img, x0, x1, y0, y1, ch) <= 255 * ((x1 - x0) * (y1 - y0)),
    decreases y1 - y0,
{
    if y1 > y0 {
        lemma_rect_sum_bound(img, x0, x1, y0, y1 - 1, ch);
        lemma_row_sum_bound(img, y1 - 1, x0, x1, ch);
        assert(255 * ((x1 - x0) * (y1 - y0 - 1)) + 255 * (x1 - x0) == 255 * ((x1 - x0) * (y1
            - y0))) by (nonlinear_arith);
    } else {
        assert(255 * ((x1 - x0) * (y1 - y0)) == 0) by (nonlinear_arith)
            requires
                y1 == y0 || x1 - x0 >= 0 && y1 - y0 == 0,
        ;
    }
}

/// The mean of a nonempty rectangle stays within a channel's range.
pub proof fn lemma_rect_mean_bound(img: Raster, x0: int, x1: int, y0: int, y1: int, ch: int)
    requires
        x0 < x1,
        y0 < y1,
    ensures
        0 <= rect_sum(img, x0, x1, y0, y1, ch) / ((x1 - x0) * (y1 - y0)) <= 255,
{
    let cnt = (x1 - x0) * (y1 - y0);
    assert((x1 - x0) * (y1 - y0) >= 1) by (nonlinear_arith)
        requires
            x1 - x0 >= 1,
            y1 - y0 >= 1,
    ;
    lemma_rect_sum_bound(img, x0, x1, y0, y1, ch);
    lemma_div_is_ordered(0, rect_sum(img, x0, x1, y0, y1, ch), cnt);
    lemma_div_is_ordered(rect_sum(img, x0, x1, y0, y1, ch), 255 * cnt, cnt);
    lemma_div_multiples_vanish(255, cnt);
}

/// Computes the three channel sums over a pixel rectangle.
fn rect_sums(img: &Raster, x0: usize, x1: usize, y0: usize, y1: usize) -> (s: (u128, u128, u128))
    requires
        img.wf(),
        x0 <= x1 <= img.width,
        y0 <= y1 <= img.height,
    ensures
        s.0 == rect_sum(*img, x0 as int, x1 as int, y0 as int, y1 as int, 0),
        s.1 == rect_sum(*img, x0 as int, x1 as int, y0 as int, y1 as int, 1),
        s.2 == rect_sum(*img, x0 as int, x1 as int, y0 as int, y1 as int, 2),
{
    let n = img.samples.len();
    let ghost area = (img.width as int) * (img.height as int);
    proof {
        assert(n as int == 3 * area) by (nonlinear_arith)
            requires
                n == (img.width as int) * (img.height as int) * 3,
                area == (img.width as int) * (img.height as int),
        ;
        assert(area >= img.width as int && area >= img.height as int) by (nonlinear_arith)
            requires
                img.width >= 1,
                img.height >= 1,
                area == (img.width as int) * (img.height as int),
        ;
    }
    let mut sr: u128 = 0;
    let mut sg: u128 = 0;
    let mut sb: u128 = 0;
    let mut y = y0;
    while y < y1
        invariant
            img.wf(),
            x0 <= x1 <= img.width,
            y0 <= y <= y1 <= img.height,
            area == (img.width as int) * (img.height as int),
            3 * area <= usize::MAX,
            area >= img.width as int,
            sr == rect_sum(*img, x0 as int, x1 as int, y0 as int, y as int, 0),
            sg == rect_sum(*img, x0 as int, x1 as int, y0 as int, y as int, 1),
            sb == rect_sum(*img, x0 as int, x1 as int, y0 as int, y as int, 2),
        decreases y1 - y,
    {
        let mut x = x0;
        proof {
            lemma_rect_sum_bound(*img, x0 as int, x1 as int, y0 as int, y as int, 0);
            lemma_rect_sum_bound(*img, x0 as int, x1 as int, y0 as int, y as int, 1);
            lemma_rect_sum_bound(*img, x0 as int, x1 as int, y0 as int, y as int, 2);
            lemma_mul_upper_bound(x1 - x0, img.width as int, y - y0, img.height as int);
        }
        let ghost base_r = sr;
        let ghost base_g = sg;
        let ghost base_b = sb;
        while x < x1
            invariant
                img.wf(),
                x0 <= x <= x1 <= img.width,
                y0 <= y < y1 <= img.height,
                3 * area <= usize::MAX,
                area >= img.width as int,
                base_r <= 255 * area,
                base_g <= 255 * area,
                base_b <= 255 * area,
                sr == base_r + row_sum(*img, y as int, x0 as int, x as int, 0),
                sg == base_g + row_sum(*img, y as int, x0 as int, x as int, 1),
                sb == base_b + row_sum(*img, y as int, x0 as int, x as int, 2),
            decreases x1 - x,
        {
            proof {
                lemma_row_sum_bound(*img, y as int, x0 as int, x as int, 0);
                lemma_row_sum_bound(*img, y as int, x0 as int, x as int, 1);
                lemma_row_sum_bound(*img, y as int, x0 as int, x as int, 2);
            }
            let p = img.pixel(x, y);
            sr = sr + (p.r as u128);
            sg = sg + (p.g as u128);
            sb = sb + (p.b as u128);
            x = x + 1;
        }
        y = y + 1;
        assert(sr == rect_sum(*img, x0 as int, x1 as int, y0 as int, y as int, 0));
        assert(sg == rect_sum(*img, x0 as int, x1 as int, y0 as int, y as int, 1));
        assert(sb == rect_sum(*img, x0 as int, x1 as int, y0 as int, y as int, 2));
    }
    (sr, sg, sb)
}

/// Computes the per-channel mean color of a nonempty pixel rectangle.
fn rect_mean_exec(img: &Raster, x0: usize, x1: usize, y0: usize, y1: usize) -> (c: Rgb)
    requires
        img.wf(),
        x0 < x1 <= img.width,
        y0 < y1 <= img.height,
    ensures
        c == rect_mean(*img, x0 as int, x1 as int, y0 as int, y1 as int),
{
    let (sr, sg, sb) = rect_sums(img, x0, x1, y0, y1);
    proof {
        lemma_mul_upper_bound(x1 - x0, u64::MAX as int, y1 - y0, u64::MAX as int);
        assert((x1 - x0) * (y1 - y0) >= 1) by (nonlinear_arith)
            requires
                x1 - x0 >= 1,
                y1 - y0 >= 1,
        ;
        lemma_rect_mean_bound(*img, x0 as int, x1 as int, y0 as int, y1 as int, 0);
        lemma_rect_mean_bound(*img, x0 as int, x1 as int, y0 as int, y1 as int, 1);
        lemma_rect_mean_bound(*img, x0 as int, x1 as int, y0 as int, y1 as int, 2);
    }
    let cnt: u128 = ((x1 - x0) as u128) * ((y1 - y0) as u128);
    Rgb { r: (sr / cnt) as u8, g: (sg / cnt) as u8, b: (sb / cnt) as u8 }
}

/// Computes one boundary of the cell partition on an axis.
pub(crate) fn seg_bound(len: usize, parts: usize, k: usize) -> (b: usize)
    requires
        parts >= 1,
        k <= parts,
    ensures
        b == seg_start(len as int, parts as int, k as int),
        b <= len,
{
    proof {
        lemma_mul_upper_bound(k as int, u64::MAX as int, len as int, u64::MAX as int);
        lemma_seg_monotone(len as int, parts as int, k as int, parts as int);
        lemma_seg_full(len as int, parts as int);
        assert(seg_start(len as int, parts as int, k as int) >= 0) by {
            lemma_seg_monotone(len as int, parts as int, 0, k as int);
            lemma_seg_zero(len as int, parts as int);
        }
    }
    let v: u128 = (k as u128) * (len as u128) / (parts as u128);
    v as usize
}

/// Computes the representative color of one quadrant of one sub-block.
pub(crate) fn quad_color(
    img: &Raster,
    cols: usize,
    rows: usize,
    cx: usize,
    cy: usize,
    qx: usize,
    qy: usize,
) -> (c: Rgb)
    requires
        img.wf(),
        1 <= cols,
        1 <= rows,
        cx < cols,
        cy < rows,
        qx < 2,
        qy < 2,
    ensures
        c == quad_color_spec(*img, cols as int, rows as int, cx as int, cy as int, qx as int,
            qy as int),
{
    let w = img.get_width();
    let h = img.get_height();
    let cx0 = seg_bound(w, cols, cx);
    let cx1 = seg_bound(w, cols, cx + 1);
    let cy0 = seg_bound(h, rows, cy);
    let cy1 = seg_bound(h, rows, cy + 1);
    proof {
        lemma_seg_monotone(w as int, cols as int, cx as int, cx as int + 1);
        lemma_seg_monotone(h as int, rows as int, cy as int, cy as int + 1);
        lemma_quad_in_cell(w as int, cols as int, cx as int, qx as int);
        lemma_quad_in_cell(h as int, rows as int, cy as int, qy as int);
    }
    let cw = cx1 - cx0;
    let chh = cy1 - cy0;
    let xl = cx0 + seg_bound(cw, 2, qx);
    let xh = cx0 + seg_bound(cw, 2, qx + 1);
    let yl = cy0 + seg_bound(chh, 2, qy);
    let yh = cy0 + seg_bound(chh, 2, qy + 1);
    if xl < xh && yl < yh {
        rect_mean_exec(img, xl, xh, yl, yh)
    } else if cx0 < cx1 && cy0 < cy1 {
        rect_mean_exec(img, cx0, cx1, cy0, cy1)
    } else {
        proof {
            lemma_seg_lt_len(w as int, cols as int, cx as int);
            lemma_seg_lt_len(h as int, rows as int, cy as int);
        }
        img.pixel(cx0, cy0)
    }
}

/// Every pixel of the raster has this one color.
pub open spec fn solid(img: Raster, col: Rgb) -> bool {
    forall|x: int, y: int|
        0 <= x < img.width && 0 <= y < img.height ==> #[trigger] img.px(x, y) == col
}

proof fn lemma_row_sum_solid(img: Raster, col: Rgb, y: int, x0: int, x1: int, ch: int)
    requires
        img.wf(),
        solid(img, col),
        0 <= x0 <= x1 <= img.width,
        0 <= y < img.height,
    ensures
        row_sum(img, y, x0, x1, ch) == (x1 - x0) * chan(col, ch),
    decreases x1 - x0,
{
    if x1 <= x0 {
        assert((x1 - x0) * chan(col, ch) == 0) by (nonlinear_arith)
            requires
                x1 - x0 == 0,
        ;
    } else {
        lemma_row_sum_solid(img, col, y, x0, x1 - 1, ch);
        assert(img.px(x1 - 1, y) == col);
        assert((x1 - 1 - x0) * chan(col, ch) + chan(col, ch) == (x1 - x0) * chan(
            col,
            ch,
        )) by (nonlinear_arith);
    }
}

proof fn lemma_rect_sum_solid(img: Raster, col: Rgb, x0: int, x1: int, y0: int, y1: int, ch: int)
    requires
        img.wf(),
        solid(img, col),
        0 <= x0 <= x1 <= img.width,
        0 <= y0 <= y1 <= img.height,
    ensures
        rect_sum(img, x0, x1, y0, y1, ch) == (x1 - x0) * (y1 - y0) * chan(col, ch),
    decreases y1 - y0,
{
    if y1 <= y0 {
        assert((x1 - x0) * (y1 - y0) * chan(col, ch) == 0) by (nonlinear_arith)
            requires
                y1 - y0 == 0,
        ;
    } else {
        lemma_rect_sum_solid(img, col, x0, x1, y0, y1 - 1, ch);
        lemma_row_sum_solid(img, col, y1 - 1, x0, x1, ch);
        assert((x1 - x0) * (y1 - 1 - y0) * chan(col, ch) + (x1 - x0) * chan(col, ch) == (x1 - x0)
            * (y1 - y0) * chan(col, ch)) by (nonlinear_arith);
    }
}

proof fn lemma_rect_mean_solid(img: Raster, col: Rgb, x0: int, x1: int, y0: int, y1: int)
    requires
        img.wf(),
        solid(img, col),
        0 <= x0 < x1 <= img.width,
        0 <= y0 < y1 <= img.height,
    ensures
        rect_mean(img, x0, x1, y0, y1) == col,
{
    let cnt = (x1 - x0) * (y1 - y0);
    assert(cnt >= 1) by (nonlinear_arith)
        requires
            x1 - x0 >= 1,
            y1 - y0 >= 1,
            cnt == (x1 - x0) * (y1 - y0),
    ;
    lemma_rect_sum_solid(img, col, x0, x1, y0, y1, 0);
    lemma_rect_sum_solid(img, col, x0, x1, y0, y1, 1);
    lemma_rect_sum_solid(img, col, x0, x1, y0, y1, 2);
    lemma_div_multiples_vanish(chan(col, 0), cnt);
    lemma_div_multiples_vanish(chan(col, 1), cnt);
    lemma_div_multiples_vanish(chan(col, 2), cnt);
    assert(rect_sum(img, x0, x1, y0, y1, 0) == cnt * chan(col, 0));
    assert(rect_sum(img, x0, x1, y0, y1, 1) == cnt * chan(col, 1));
    assert(rect_sum(img, x0, x1, y0, y1, 2) == cnt * chan(col, 2));
}

/// On a solid-color raster every quadrant's representative color is that
/// color, whichever fallback applies.
pub proof fn lemma_quad_color_solid(
    img: Raster,
    cols: int,
    rows: int,
    cx: int,
    cy: int,
    qx: int,
    qy: int,
    col: Rgb,
)
    requires
        img.wf(),
        solid(img, col),
        1 <= cols,
        1 <= rows,
        0 <= cx < cols,
        0 <= cy < rows,
        0 <= qx < 2,
        0 <= qy < 2,
    ensures
        quad_color_spec(img, cols, rows, cx, cy, qx, qy) == col,
{
    let w = img.width as int;
    let h = img.height as int;
    lemma_quad_in_cell(w, cols, cx, qx);
    lemma_quad_in_cell(h, rows, cy, qy);
    lemma_seg_lt_len(w, cols, cx);
    lemma_seg_lt_len(h, rows, cy);
    lemma_seg_monotone(w, cols, cx + 1, cols);
    lemma_seg_full(w, cols);
    lemma_seg_monotone(h, rows, cy + 1, rows);
    lemma_seg_full(h, rows);
    let xl = quad_lo(w, cols, cx, qx);
    let xh = quad_hi(w, cols, cx, qx);
    let yl = quad_lo(h, rows, cy, qy);
    let yh = quad_hi(h, rows, cy, qy);
    let cx0 = seg_start(w, cols, cx);
    let cx1 = seg_start(w, cols, cx + 1);
    let cy0 = seg_start(h, rows, cy);
    let cy1 = seg_start(h, rows, cy + 1);
    if xl < xh && yl < yh {
        lemma_rect_mean_solid(img, col, xl, xh, yl, yh);
    } else if cx0 < cx1 && cy0 < cy1 {
        lemma_rect_mean_solid(img, col, cx0, cx1, cy0, cy1);
    } else {
        assert(img.px(cx0, cy0) == col);
    }
}

} // verus!
