//! The target character grid and its derivation from the raster size.
//!
//! A terminal character cell is taken to be twice as tall as it is wide, so
//! when only one target dimension is given the other is derived from the
//! raster's aspect ratio corrected by that factor, rounded to the nearest
//! cell and clamped to at least one cell.

use crate::raster::TexelError;
use vstd::arithmetic::div_mod::{
    lemma_div_is_ordered, lemma_div_multiples_vanish, lemma_fundamental_div_mod, lemma_mod_bound,
};
use vstd::arithmetic::mul::lemma_mul_upper_bound;
use vstd::prelude::*;

verus! {

/// The number of terminal character cells to fill, columns by rows.
#[derive(Clone, Copy, Debug, PartialEq, Eq, Structural)]
pub struct TargetGrid {
    pub columns: usize,
    pub rows: usize,
}

impl TargetGrid {
    /// Both grid dimensions are positive.
    pub open spec fn wf(self) -> bool {
        self.columns >= 1 && self.rows >= 1
    }
}

/// The row count derived from a column count: `columns * height` source
/// pixels per cell column spread over cells twice as tall as wide, rounded
/// to the nearest cell, at least one.
pub open spec fn rows_for_cols(w: int, h: int, c: int) -> int
    recommends
        w >= 1,
{
    let q = (c * h + w) / (2 * w);
    if q < 1 {
        1
    } else {
        q
    }
}

/// The column count derived from a row count, by the inverse of the rule of
/// [`rows_for_cols`], rounded to the nearest cell, at least one.
pub open spec fn cols_for_rows(w: int, h: int, r: int) -> int
    recommends
        h >= 1,
{
    let q = (2 * r * w + h / 2) / h;
    if q < 1 {
        1
    } else {
        q
    }
}

/// The column count used when the caller gives neither dimension: one cell
/// per two pixel columns, so each quarter-block quadrant spans about one
/// source pixel horizontally.
pub open spec fn default_cols(w: int) -> int {
    (w + 1) / 2
}

/// The grid dimensions, columns then rows, that a render call settles on.
pub open spec fn target_dims(w: int, h: int, tc: Option<usize>, tr: Option<usize>) -> (int, int) {
    match (tc, tr) {
        (Some(c), Some(r)) => (c as int, r as int),
        (Some(c), None) => (c as int, rows_for_cols(w, h, c as int)),
        (None, Some(r)) => (cols_for_rows(w, h, r as int), r as int),
        (None, None) => (default_cols(w), rows_for_cols(w, h, default_cols(w))),
    }
}

/// An explicitly supplied target dimension is zero.
pub open spec fn target_invalid(tc: Option<usize>, tr: Option<usize>) -> bool {
    tc == Some(0usize) || tr == Some(0usize)
}

/// Both settled grid dimensions fit the machine's word size.
pub open spec fn dims_fit(w: int, h: int, tc: Option<usize>, tr: Option<usize>) -> bool {
    &&& target_dims(w, h, tc, tr).0 <= usize::MAX
    &&& target_dims(w, h, tc, tr).1 <= usize::MAX
}

fn derive_rows(width: usize, height: usize, c: usize) -> (r: usize)
    requires
        width >= 1,
        height >= 1,
        c >= 1,
        rows_for_cols(width as int, height as int, c as int) <= usize::MAX,
    ensures
        r == rows_for_cols(width as int, height as int, c as int),
        r >= 1,
{
    proof {
        lemma_mul_upper_bound(c as int, u64::MAX as int, height as int, u64::MAX as int);
    }
    let num: u128 = (c as u128) * (height as u128) + (width as u128);
    let den: u128 = 2 * (width as u128);
    let q = num / den;
    if q < 1 {
        1
    } else {
        q as usize
    }
}

fn derive_cols(width: usize, height: usize, r: usize) -> (c: usize)
    requires
        width >= 1,
        height >= 1,
        r >= 1,
        cols_for_rows(width as int, height as int, r as int) <= usize::MAX,
    ensures
        c == cols_for_rows(width as int, height as int, r as int),
        c >= 1,
{
    proof {
        let w_i = width as int;
        let h_i = height as int;
        let r_i = r as int;
        lemma_mul_upper_bound(r_i, u64::MAX as int, w_i, u64::MAX as int);
        assert(r_i * w_i >= 0) by (nonlinear_arith)
            requires
                r_i >= 0,
                w_i >= 0,
        ;
        assert(2 * (r_i * w_i) == 2 * r_i * w_i) by (nonlinear_arith);
        let top = 2 * (r_i * w_i) + h_i / 2;
        let q = top / h_i;
        lemma_fundamental_div_mod(top, h_i);
        lemma_mod_bound(top, h_i);
        if q < 0 {
            assert(h_i * q <= h_i * (-1)) by (nonlinear_arith)
                requires
                    q <= -1,
                    h_i >= 1,
            ;
            assert(false);
        }
        if q >= 1 {
            assert(cols_for_rows(w_i, h_i, r_i) == q);
            assert(q <= usize::MAX);
        }
        lemma_mul_upper_bound(h_i, u64::MAX as int, q, u64::MAX as int);
        assert(top <= u64::MAX * u64::MAX + u64::MAX - 1);
        assert(top <= u128::MAX);
    }
    let prod: u128 = (r as u128) * (width as u128);
    let num: u128 = 2 * prod + (height as u128) / 2;
    let q = num / (height as u128);
    if q < 1 {
        1
    } else {
        q as usize
    }
}

/// Settles the target grid for a raster: supplied dimensions are taken as
/// they are, missing ones are derived preserving the raster's aspect ratio,
/// and an explicitly supplied zero dimension is an error.
pub fn resolve_grid(
    width: usize,
    height: usize,
    columns: Option<usize>,
    rows: Option<usize>,
) -> (res: Result<TargetGrid, TexelError>)
    requires
        width >= 1,
        height >= 1,
        dims_fit(width as int, height as int, columns, rows),
    ensures
        res matches Ok(g) ==> {
            &&& g.wf()
            &&& g.columns == target_dims(width as int, height as int, columns, rows).0
            &&& g.rows == target_dims(width as int, height as int, columns, rows).1
        },
        res matches Err(e) ==> e == TexelError::InvalidTarget,
        res is Err <==> target_invalid(columns, rows),
{
    match (columns, rows) {
        (Some(c), Some(r)) => {
            if c == 0 || r == 0 {
                Err(TexelError::InvalidTarget)
            } else {
                Ok(TargetGrid { columns: c, rows: r })
            }
        },
        (Some(c), None) => {
            if c == 0 {
                Err(TexelError::InvalidTarget)
            } else {
                Ok(TargetGrid { columns: c, rows: derive_rows(width, height, c) })
            }
        },
        (None, Some(r)) => {
            if r == 0 {
                Err(TexelError::InvalidTarget)
            } else {
                Ok(TargetGrid { columns: derive_cols(width, height, r), rows: r })
            }
        },
        (None, None) => {
            let c = width / 2 + width % 2;
            assert(c == default_cols(width as int));
            Ok(TargetGrid { columns: c, rows: derive_rows(width, height, c) })
        },
    }
}


/// Decides whether the settled grid dimensions fit the machine's word size,
/// so that an unchecked caller can test [`render`]'s precondition before
/// calling it.
///
/// [`render`]: crate::render::render
pub fn target_fits(
    width: usize,
    height: usize,
    columns: Option<usize>,
    rows: Option<usize>,
) -> (b: bool)
    requires
        width >= 1,
        height >= 1,
    ensures
        b == dims_fit(width as int, height as int, columns, rows),
{
    let max = usize::MAX as u128;
    match (columns, rows) {
        (Some(_), Some(_)) => true,
        (Some(c), None) => {
            proof {
                lemma_mul_upper_bound(c as int, u64::MAX as int, height as int, u64::MAX as int);
            }
            let q = ((c as u128) * (height as u128) + (width as u128)) / (2 * (width as u128));
            q <= max
        },
        (None, Some(r)) => {
            proof {
                lemma_mul_upper_bound(r as int, u64::MAX as int, width as int, u64::MAX as int);
            }
            let prod: u128 = (r as u128) * (width as u128);
            let half: u128 = (height as u128) / 2;
            if prod > (u128::MAX - half) / 2 {
                proof {
                    let top = 2 * ((r as int) * (width as int)) + (height as int) / 2;
                    let a = u128::MAX - (height as int) / 2;
                    lemma_fundamental_div_mod(a, 2);
                    lemma_mod_bound(a, 2);
                    assert(top > u128::MAX);
                    let bound: int = 0x1_0000_0000_0000_0000;
                    assert(bound * (height as int) <= bound * (u64::MAX as int)) by (nonlinear_arith)
                        requires
                            (height as int) <= u64::MAX as int,
                            bound == 0x1_0000_0000_0000_0000,
                    ;
                    assert(bound * (u64::MAX as int) < u128::MAX);
                    lemma_div_is_ordered(bound * (height as int), top, height as int);
                    lemma_div_multiples_vanish(bound, height as int);
                    assert(top / (height as int) >= bound);
                    assert(2 * ((r as int) * (width as int)) == 2 * (r as int) * (
                    width as int)) by (nonlinear_arith);
                    assert(!dims_fit(width as int, height as int, columns, rows));
                }
                false
            } else {
                proof {
                    let a = u128::MAX - (height as int) / 2;
                    lemma_fundamental_div_mod(a, 2);
                    lemma_mod_bound(a, 2);
                    assert(2 * ((r as int) * (width as int)) == 2 * (r as int) * (
                    width as int)) by (nonlinear_arith);
                }
                let q = (2 * prod + half) / (height as u128);
                q <= max
            }
        },
        (None, None) => {
            let dc = width / 2 + width % 2;
            assert(dc == default_cols(width as int));
            proof {
                lemma_mul_upper_bound(dc as int, u64::MAX as int, height as int, u64::MAX as int);
            }
            let q = ((dc as u128) * (height as u128) + (width as u128)) / (2 * (width as u128));
            q <= max
        },
    }
}

/// The derived row count satisfies the aspect formula within rounding
/// tolerance: `2 * width * rows` differs from `columns * height` by at most
/// `width`, that is, by at most half a cell's worth of source rows. The
/// bound holds whenever the formula itself, before clamping, gives at least
/// one row.
pub proof fn lemma_rows_aspect(w: int, h: int, c: int)
    requires
        1 <= w,
        1 <= h,
        1 <= c,
        (c * h + w) / (2 * w) >= 1,
    ensures
        c * h - w < 2 * w * rows_for_cols(w, h, c),
        2 * w * rows_for_cols(w, h, c) <= c * h + w,
{
    let q = (c * h + w) / (2 * w);
    lemma_fundamental_div_mod(c * h + w, 2 * w);
    lemma_mod_bound(c * h + w, 2 * w);
    assert(c * h + w == 2 * w * q + (c * h + w) % (2 * w));
}

} // verus!
