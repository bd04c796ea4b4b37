//! The renderer: the single entry point that drives resampling,
//! quantization and encoding.
//!
//! The renderer draws with quarter-block glyphs: every output cell stands
//! for a sub-block of the raster split into two-by-two quadrants, so one
//! character carries four samples.
//!
//! `render` is a pure function of its inputs: its contract pins the output
//! text to a specification function of the raster, the settled grid and the
//! separator, so identical inputs give byte-identical output.

use crate::encode::{
    count_bg, count_fg, count_glyphs, count_seps, encode, grid_steps, init_state,
    lemma_grid_counts, lemma_grid_uniform_codes, steps_text, uniform_colors, Step,
};
use crate::grid::{dims_fit, resolve_grid, target_dims, target_invalid};
use crate::quantize::{quantize, quantize_spec, GlyphCell};
use crate::raster::{Raster, TexelError};
use crate::rgb::Rgb;
use crate::sample::{lemma_quad_color_solid, quad_color, quad_color_spec, solid};
use vstd::arithmetic::div_mod::{
    lemma_div_multiples_vanish_fancy, lemma_fundamental_div_mod_converse, lemma_div_is_ordered,
    lemma_mod_bound,
};
use vstd::prelude::*;

verus! {

/// The cell the renderer computes for grid position `(cx, cy)`: the
/// quantized quadrant colors of that sub-block, quadrants ordered top-left,
/// top-right, bottom-left, bottom-right.
pub open spec fn cell_at(img: Raster, cols: int, rows: int, cx: int, cy: int) -> GlyphCell {
    quantize_spec(
        quad_color_spec(img, cols, rows, cx, cy, 0, 0),
        quad_color_spec(img, cols, rows, cx, cy, 1, 0),
        quad_color_spec(img, cols, rows, cx, cy, 0, 1),
        quad_color_spec(img, cols, rows, cx, cy, 1, 1),
    )
}

/// The row-major cell sequence of a render.
pub open spec fn render_cells(img: Raster, cols: int, rows: int) -> Seq<GlyphCell> {
    Seq::new((cols * rows) as nat, |i: int| cell_at(img, cols, rows, i % cols, i / cols))
}

/// The emission trace of a render.
pub open spec fn render_steps(img: Raster, cols: int, rows: int) -> Seq<Step> {
    grid_steps(init_state(), render_cells(img, cols, rows), cols, rows)
}

/// The text of a render.
pub open spec fn render_text(img: Raster, cols: int, rows: int, sep: Seq<char>) -> Seq<char> {
    steps_text(render_steps(img, cols, rows), sep)
}

/// A row-major index names a column before the grid's width and a row
/// before its height.
proof fn lemma_rowmajor_bounds(i: int, cols: int, rows: int)
    requires
        cols >= 1,
        rows >= 1,
        0 <= i < cols * rows,
    ensures
        0 <= i % cols < cols,
        0 <= i / cols < rows,
{
    lemma_mod_bound(i, cols);
    lemma_div_is_ordered(0, i, cols);
    lemma_div_is_ordered(i, cols * rows - 1, cols);
    assert(cols * rows - 1 == cols * (rows - 1) + (cols - 1)) by (nonlinear_arith);
    lemma_div_multiples_vanish_fancy(rows - 1, cols - 1, cols);
}

/// Renders a raster onto a character grid. Dimensions given by the caller
/// are used as they are; a missing one is derived from the raster's aspect
/// ratio; an explicitly zero dimension is reported as `InvalidTarget`, with
/// no partial output. On success the output is exactly the specified text
/// of the settled grid, so identical inputs give byte-identical output.
pub fn render(img: &Raster, columns: Option<usize>, rows: Option<usize>, sep: &str) -> (res:
    Result<String, TexelError>)
    requires
        img.wf(),
        dims_fit(img.width as int, img.height as int, columns, rows),
    ensures
        res matches Ok(out) ==> out@ == render_text(
            *img,
            target_dims(img.width as int, img.height as int, columns, rows).0,
            target_dims(img.width as int, img.height as int, columns, rows).1,
            sep@,
        ),
        res matches Err(e) ==> e == TexelError::InvalidTarget,
        res is Err <==> target_invalid(columns, rows),
{
    let g = match resolve_grid(img.get_width(), img.get_height(), columns, rows) {
        Ok(g) => g,
        Err(e) => {
            return Err(e);
        },
    };
    let cols = g.columns;
    let rws = g.rows;
    let ghost cols_i = cols as int;
    let ghost rows_i = rws as int;
    let mut cells: Vec<GlyphCell> = Vec::new();
    let mut cy: usize = 0;
    while cy < rws
        invariant
            img.wf(),
            cols >= 1,
            rws >= 1,
            cy <= rws,
            cols_i == cols as int,
            rows_i == rws as int,
            cells@.len() == cy * cols,
            forall|i: int|
                0 <= i < cells@.len() ==> #[trigger] cells@[i] == cell_at(
                    *img,
                    cols_i,
                    rows_i,
                    i % cols_i,
                    i / cols_i,
                ),
            forall|i: int| 0 <= i < cells@.len() ==> (#[trigger] cells@[i]).wf(),
        decreases rws - cy,
    {
        let mut cx: usize = 0;
        proof {
            assert((cy as int) * cols_i + cols_i <= rows_i * cols_i) by (nonlinear_arith)
                requires
                    0 <= cy as int,
                    (cy as int) < rows_i,
                    cols_i >= 0,
            ;
        }
        while cx < cols
            invariant
                img.wf(),
                cols >= 1,
                rws >= 1,
                cy < rws,
                cx <= cols,
                cols_i == cols as int,
                rows_i == rws as int,
                (cy as int) * cols_i + cols_i <= rows_i * cols_i,
                cells@.len() == cy * cols + cx,
                forall|i: int|
                    0 <= i < cells@.len() ==> #[trigger] cells@[i] == cell_at(
                        *img,
                        cols_i,
                        rows_i,
                        i % cols_i,
                        i / cols_i,
                    ),
                forall|i: int| 0 <= i < cells@.len() ==> (#[trigger] cells@[i]).wf(),
            decreases cols - cx,
        {
            let c00 = quad_color(img, cols, rws, cx, cy, 0, 0);
            let c10 = quad_color(img, cols, rws, cx, cy, 1, 0);
            let c01 = quad_color(img, cols, rws, cx, cy, 0, 1);
            let c11 = quad_color(img, cols, rws, cx, cy, 1, 1);
            let cell = quantize(c00, c10, c01, c11);
            cells.push(cell);
            proof {
                lemma_fundamental_div_mod_converse(
                    (cy as int) * cols_i + (cx as int),
                    cols_i,
                    cy as int,
                    cx as int,
                );
                assert(cell == cell_at(*img, cols_i, rows_i, cx as int, cy as int));
            }
            cx = cx + 1;
        }
        cy = cy + 1;
        proof {
            assert((cy as int) * cols_i == (cy as int - 1) * cols_i + cols_i) by (nonlinear_arith);
        }
    }
    proof {
        assert((rws as int) * cols_i == cols_i * rows_i) by (nonlinear_arith)
            requires
                rows_i == rws as int,
        ;
        assert(cells@ =~= render_cells(*img, cols_i, rows_i));
    }
    let out = encode(&cells, cols, rws, sep);
    Ok(out)
}


/// Size contract: a render's trace holds exactly one glyph per target cell
/// and exactly one row separator per target row.
pub proof fn lemma_render_sizes(img: Raster, cols: int, rows: int)
    requires
        cols >= 0,
        rows >= 0,
    ensures
        render_cells(img, cols, rows).len() == cols * rows,
        count_glyphs(render_steps(img, cols, rows)) == cols * rows,
        count_seps(render_steps(img, cols, rows)) == rows,
{
    lemma_grid_counts(init_state(), render_cells(img, cols, rows), cols, rows);
}

/// Every cell rendered from a solid-color raster is the fully-on glyph in
/// that color.
pub proof fn lemma_render_cells_solid(img: Raster, cols: int, rows: int, col: Rgb)
    requires
        img.wf(),
        solid(img, col),
        cols >= 1,
        rows >= 1,
    ensures
        uniform_colors(render_cells(img, cols, rows), col),
        render_cells(img, cols, rows).len() == cols * rows,
{
    let cells = render_cells(img, cols, rows);
    assert forall|i: int| 0 <= i < cells.len() implies (#[trigger] cells[i]).fg == col
        && cells[i].bg == col by {
        lemma_rowmajor_bounds(i, cols, rows);
        lemma_quad_color_solid(img, cols, rows, i % cols, i / cols, 0, 0, col);
        lemma_quad_color_solid(img, cols, rows, i % cols, i / cols, 1, 0, col);
        lemma_quad_color_solid(img, cols, rows, i % cols, i / cols, 0, 1, col);
        lemma_quad_color_solid(img, cols, rows, i % cols, i / cols, 1, 1, col);
        assert(cells[i] == quantize_spec(col, col, col, col));
    }
}

/// Color-code minimality: rendering a raster of one solid color emits
/// exactly one foreground color code and one background color code in the
/// whole output, whatever the grid size.
pub proof fn lemma_render_solid_codes(img: Raster, cols: int, rows: int, col: Rgb)
    requires
        img.wf(),
        solid(img, col),
        cols >= 1,
        rows >= 1,
    ensures
        count_fg(render_steps(img, cols, rows)) == 1,
        count_bg(render_steps(img, cols, rows)) == 1,
{
    lemma_render_cells_solid(img, cols, rows, col);
    lemma_grid_uniform_codes(render_cells(img, cols, rows), cols, rows, col);
}

} // verus!
