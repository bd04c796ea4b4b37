//! The geometry of the resampler: how the raster is partitioned into cells
//! and quadrants along each axis.
//!
//! An axis of `len` pixels split into `parts` cells gives cell `k` the pixel
//! range from `k * len / parts` up to `(k + 1) * len / parts`. Each cell
//! range is split into two quadrant ranges by the same rule. Both
//! partitions are exact: the ranges are in order, touch, and together cover
//! the whole axis, also when the division is not integral, so every source
//! pixel belongs to exactly one quadrant of exactly one cell.

use vstd::arithmetic::div_mod::{
    lemma_div_is_ordered, lemma_div_multiples_vanish, lemma_div_multiples_vanish_fancy,
};
use vstd::arithmetic::mul::lemma_mul_inequality;
use vstd::prelude::*;

verus! {

/// Where cell `k` of `parts` begins on an axis of `len` pixels. The value
/// for `k == parts` is the end of the axis, so a cell's range runs from its
/// own boundary up to the next one.
pub open spec fn seg_start(len: int, parts: int, k: int) -> int
    recommends
        parts >= 1,
{
    k * len / parts
}

/// Where quadrant `q` of cell `k` begins: the cell's own range split in two
/// by the same boundary rule.
pub open spec fn quad_lo(len: int, parts: int, k: int, q: int) -> int {
    let lo = seg_start(len, parts, k);
    let cw = seg_start(len, parts, k + 1) - lo;
    lo + seg_start(cw, 2, q)
}

/// Where quadrant `q` of cell `k` ends.
pub open spec fn quad_hi(len: int, parts: int, k: int, q: int) -> int {
    let lo = seg_start(len, parts, k);
    let cw = seg_start(len, parts, k + 1) - lo;
    lo + seg_start(cw, 2, q + 1)
}

/// Pixel `x` falls in quadrant `q` of cell `k`.
pub open spec fn in_quad(len: int, parts: int, k: int, q: int, x: int) -> bool {
    &&& 0 <= k < parts
    &&& 0 <= q < 2
    &&& quad_lo(len, parts, k, q) <= x < quad_hi(len, parts, k, q)
}

/// The first boundary is the start of the axis.
pub proof fn lemma_seg_zero(len: int, parts: int)
    requires
        parts >= 1,
    ensures
        seg_start(len, parts, 0) == 0,
{
    assert(0 * len == 0);
}

/// The last boundary is the end of the axis.
pub proof fn lemma_seg_full(len: int, parts: int)
    requires
        parts >= 1,
        len >= 0,
    ensures
        seg_start(len, parts, parts) == len,
{
    lemma_div_multiples_vanish(len, parts);
}

/// Boundaries never decrease.
pub proof fn lemma_seg_monotone(len: int, parts: int, k1: int, k2: int)
    requires
        parts >= 1,
        len >= 0,
        k1 <= k2,
    ensures
        seg_start(len, parts, k1) <= seg_start(len, parts, k2),
{
    lemma_mul_inequality(k1, k2, len);
    lemma_div_is_ordered(k1 * len, k2 * len, parts);
}

/// A cell starts strictly before the end of the axis.
pub proof fn lemma_seg_lt_len(len: int, parts: int, k: int)
    requires
        parts >= 1,
        len >= 1,
        0 <= k < parts,
    ensures
        0 <= seg_start(len, parts, k) < len,
{
    lemma_seg_monotone(len, parts, 0, k);
    lemma_seg_zero(len, parts);
    lemma_mul_inequality(k, parts - 1, len);
    assert((parts - 1) * len == parts * len - len) by (nonlinear_arith);
    assert(k * len <= parts * len - len);
    lemma_div_is_ordered(k * len, parts * len - 1, parts);
    assert(parts * len - 1 == parts * (len - 1) + (parts - 1)) by (nonlinear_arith);
    lemma_div_multiples_vanish_fancy(len - 1, parts - 1, parts);
}

/// Finds the cell whose range holds `x`, walking up from boundary `k`.
proof fn locate_seg_from(len: int, parts: int, x: int, k: int) -> (res: int)
    requires
        parts >= 1,
        0 <= x < len,
        0 <= k < parts,
        seg_start(len, parts, k) <= x,
    ensures
        k <= res < parts,
        seg_start(len, parts, res) <= x < seg_start(len, parts, res + 1),
    decreases parts - k,
{
    if x < seg_start(len, parts, k + 1) {
        k
    } else {
        lemma_seg_full(len, parts);
        assert(k + 1 < parts);
        locate_seg_from(len, parts, x, k + 1)
    }
}

/// Finds the cell whose range holds `x`.
pub proof fn locate_seg(len: int, parts: int, x: int) -> (k: int)
    requires
        parts >= 1,
        0 <= x < len,
    ensures
        0 <= k < parts,
        seg_start(len, parts, k) <= x < seg_start(len, parts, k + 1),
{
    lemma_seg_zero(len, parts);
    locate_seg_from(len, parts, x, 0)
}

/// A quadrant's range lies inside its cell's range, and the two quadrants
/// of a cell split the cell's range exactly.
pub proof fn lemma_quad_in_cell(len: int, parts: int, k: int, q: int)
    requires
        parts >= 1,
        len >= 0,
        0 <= k < parts,
        0 <= q < 2,
    ensures
        seg_start(len, parts, k) <= quad_lo(len, parts, k, q),
        quad_lo(len, parts, k, q) <= quad_hi(len, parts, k, q),
        quad_hi(len, parts, k, q) <= seg_start(len, parts, k + 1),
        quad_lo(len, parts, k, 0) == seg_start(len, parts, k),
        quad_hi(len, parts, k, 1) == seg_start(len, parts, k + 1),
        quad_hi(len, parts, k, 0) == quad_lo(len, parts, k, 1),
{
    let lo = seg_start(len, parts, k);
    let cw = seg_start(len, parts, k + 1) - lo;
    lemma_seg_monotone(len, parts, k, k + 1);
    lemma_seg_zero(cw, 2);
    lemma_seg_full(cw, 2);
    lemma_seg_monotone(cw, 2, q, q + 1);
    lemma_seg_monotone(cw, 2, 0, q);
    lemma_seg_monotone(cw, 2, q + 1, 2);
}

/// Every pixel on the axis falls in some quadrant of some cell.
pub proof fn lemma_quad_cover(len: int, parts: int, x: int)
    requires
        parts >= 1,
        0 <= x < len,
    ensures
        exists|k: int, q: int| in_quad(len, parts, k, q, x),
{
    let k = locate_seg(len, parts, x);
    let lo = seg_start(len, parts, k);
    let cw = seg_start(len, parts, k + 1) - lo;
    let q = locate_seg(cw, 2, x - lo);
    assert(in_quad(len, parts, k, q, x));
}

/// No pixel falls in two different quadrants.
pub proof fn lemma_quad_unique(
    len: int,
    parts: int,
    x: int,
    k1: int,
    q1: int,
    k2: int,
    q2: int,
)
    requires
        parts >= 1,
        len >= 0,
        in_quad(len, parts, k1, q1, x),
        in_quad(len, parts, k2, q2, x),
    ensures
        k1 == k2,
        q1 == q2,
{
    lemma_quad_in_cell(len, parts, k1, q1);
    lemma_quad_in_cell(len, parts, k2, q2);
    if k1 < k2 {
        lemma_seg_monotone(len, parts, k1 + 1, k2);
        assert(false);
    }
    if k2 < k1 {
        lemma_seg_monotone(len, parts, k2 + 1, k1);
        assert(false);
    }
    if q1 < q2 {
        assert(quad_hi(len, parts, k1, 0) == quad_lo(len, parts, k1, 1));
        assert(false);
    }
    if q2 < q1 {
        assert(false);
    }
}

/// Pixel `(x, y)` falls in the quadrant at `(qx, qy)` of the sub-block at
/// cell `(cx, cy)` of a `cols` by `rows` grid over a `w` by `h` raster.
pub open spec fn in_quad_rect(
    w: int,
    h: int,
    cols: int,
    rows: int,
    cx: int,
    cy: int,
    qx: int,
    qy: int,
    x: int,
    y: int,
) -> bool {
    in_quad(w, cols, cx, qx, x) && in_quad(h, rows, cy, qy, y)
}

/// Coverage: every raster pixel lies in exactly one quadrant of exactly one
/// sub-block, for every raster size and target grid — the quadrant
/// pixel-sets partition the raster with no pixel omitted or double-counted.
pub proof fn lemma_pixel_coverage(w: int, h: int, cols: int, rows: int, x: int, y: int)
    requires
        cols >= 1,
        rows >= 1,
        0 <= x < w,
        0 <= y < h,
    ensures
        exists|p: (int, int, int, int)|
            in_quad_rect(w, h, cols, rows, p.0, p.1, p.2, p.3, x, y),
        forall|p1: (int, int, int, int), p2: (int, int, int, int)|
            in_quad_rect(w, h, cols, rows, p1.0, p1.1, p1.2, p1.3, x, y)
                && in_quad_rect(w, h, cols, rows, p2.0, p2.1, p2.2, p2.3, x, y) ==> p1 == p2,
{
    lemma_quad_cover(w, cols, x);
    lemma_quad_cover(h, rows, y);
    let (kx, qx) = choose|k: int, q: int| in_quad(w, cols, k, q, x);
    let (ky, qy) = choose|k: int, q: int| in_quad(h, rows, k, q, y);
    let p = (kx, ky, qx, qy);
    assert(in_quad_rect(w, h, cols, rows, p.0, p.1, p.2, p.3, x, y));
    assert forall|p1: (int, int, int, int), p2: (int, int, int, int)|
        in_quad_rect(w, h, cols, rows, p1.0, p1.1, p1.2, p1.3, x, y)
            && in_quad_rect(w, h, cols, rows, p2.0, p2.1, p2.2, p2.3, x, y) implies p1 == p2 by {
        lemma_quad_unique(w, cols, x, p1.0, p1.2, p2.0, p2.2);
        lemma_quad_unique(h, rows, y, p1.1, p1.3, p2.1, p2.3);
    }
}

} // verus!
