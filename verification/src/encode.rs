//! The encoder: turns the row-major cell sequence into one output string.
//!
//! The encoder walks the cells in row-major order and keeps the colors the
//! terminal currently has active. For each cell it emits a foreground color
//! code only when the cell's foreground differs from the active one, then
//! likewise for the background, then the cell's glyph; after each row it
//! emits the caller's row separator verbatim. No trailing reset is emitted.
//!
//! The output is specified in two layers: an abstract trace of emission
//! steps, and the text that the trace prints. The counting laws — one glyph
//! per cell, one separator per row, no repeated color codes over a run of
//! equal colors — are stated and proved over the trace.

use crate::codes::{bg_of, fg_of, push_char};
use crate::glyph::{glyph_char, glyph_char_spec};
use crate::quantize::GlyphCell;
use crate::rgb::Rgb;
use vstd::prelude::*;
use vstd::string::StringExecFns;

verus! {

/// One emission of the encoder.
pub enum Step {
    /// A foreground color code.
    SetFg(Rgb),
    /// A background color code.
    SetBg(Rgb),
    /// The glyph for an on-quadrant mask.
    Glyph(u8),
    /// The caller's row separator.
    Sep,
}

/// The colors the terminal has active while encoding; `None` before any
/// code has been emitted for that channel.
pub struct ColorState {
    pub fg: Option<Rgb>,
    pub bg: Option<Rgb>,
}

/// The encoder state at the start of a render: no color emitted yet.
pub open spec fn init_state() -> ColorState {
    ColorState { fg: None, bg: None }
}

/// What one cell emits under a given active-color state.
pub open spec fn cell_steps(st: ColorState, cell: GlyphCell) -> Seq<Step> {
    let f: Seq<Step> = if st.fg != Some(cell.fg) {
        seq![Step::SetFg(cell.fg)]
    } else {
        Seq::empty()
    };
    let b: Seq<Step> = if st.bg != Some(cell.bg) {
        seq![Step::SetBg(cell.bg)]
    } else {
        Seq::empty()
    };
    f + b + seq![Step::Glyph(cell.quads)]
}

/// The active colors after a cell has been encoded.
pub open spec fn next_state(cell: GlyphCell) -> ColorState {
    ColorState { fg: Some(cell.fg), bg: Some(cell.bg) }
}

/// What one row of cells emits.
pub open spec fn row_steps(st: ColorState, cells: Seq<GlyphCell>) -> Seq<Step>
    decreases cells.len(),
{
    if cells.len() == 0 {
        Seq::empty()
    } else {
        cell_steps(st, cells[0]) + row_steps(next_state(cells[0]), cells.skip(1))
    }
}

/// The active colors after a row of cells.
pub open spec fn row_end_state(st: ColorState, cells: Seq<GlyphCell>) -> ColorState {
    if cells.len() == 0 {
        st
    } else {
        next_state(cells.last())
    }
}

/// The active colors after the first `k` rows.
pub open spec fn state_after_rows(st: ColorState, cells: Seq<GlyphCell>, cols: int, k: int) -> ColorState
    decreases k,
{
    if k <= 0 {
        st
    } else {
        state_after_rows(row_end_state(st, cells.take(cols)), cells.skip(cols), cols, k - 1)
    }
}

/// What a whole grid of cells emits: each row's steps followed by one
/// separator.
pub open spec fn grid_steps(st: ColorState, cells: Seq<GlyphCell>, cols: int, rows: int) -> Seq<
    Step,
>
    decreases rows,
{
    if rows <= 0 {
        Seq::empty()
    } else {
        row_steps(st, cells.take(cols)) + seq![Step::Sep] + grid_steps(
            row_end_state(st, cells.take(cols)),
            cells.skip(cols),
            cols,
            rows - 1,
        )
    }
}

/// The text one step prints.
pub open spec fn step_text(s: Step, sep: Seq<char>) -> Seq<char> {
    match s {
        Step::SetFg(c) => fg_of(c),
        Step::SetBg(c) => bg_of(c),
        Step::Glyph(m) => seq![glyph_char_spec(m as int)],
        Step::Sep => sep,
    }
}

/// The text a trace of steps prints.
pub open spec fn steps_text(ss: Seq<Step>, sep: Seq<char>) -> Seq<char>
    decreases ss.len(),
{
    if ss.len() == 0 {
        Seq::empty()
    } else {
        step_text(ss[0], sep) + steps_text(ss.skip(1), sep)
    }
}

/// A discriminant for counting the kinds of steps in a trace: foreground
/// code, background code, glyph, separator.
pub open spec fn step_kind(s: Step) -> int {
    match s {
        Step::SetFg(_) => 0,
        Step::SetBg(_) => 1,
        Step::Glyph(_) => 2,
        Step::Sep => 3,
    }
}

/// How many steps of one kind a trace holds.
pub open spec fn count_kind(ss: Seq<Step>, k: int) -> int
    decreases ss.len(),
{
    if ss.len() == 0 {
        0
    } else {
        (if step_kind(ss[0]) == k {
            1int
        } else {
            0int
        }) + count_kind(ss.skip(1), k)
    }
}

/// How many foreground color codes a trace emits.
pub open spec fn count_fg(ss: Seq<Step>) -> int {
    count_kind(ss, 0)
}

/// How many background color codes a trace emits.
pub open spec fn count_bg(ss: Seq<Step>) -> int {
    count_kind(ss, 1)
}

/// How many glyphs a trace emits.
pub open spec fn count_glyphs(ss: Seq<Step>) -> int {
    count_kind(ss, 2)
}

/// How many row separators a trace emits.
pub open spec fn count_seps(ss: Seq<Step>) -> int {
    count_kind(ss, 3)
}

/// Printing distributes over trace concatenation.
pub proof fn lemma_steps_text_concat(a: Seq<Step>, b: Seq<Step>, sep: Seq<char>)
    ensures
        steps_text(a + b, sep) == steps_text(a, sep) + steps_text(b, sep),
    decreases a.len(),
{
    if a.len() == 0 {
        assert(a + b =~= b);
        assert(steps_text(a, sep) + steps_text(b, sep) =~= steps_text(b, sep));
    } else {
        lemma_steps_text_concat(a.skip(1), b, sep);
        assert((a + b).skip(1) =~= a.skip(1) + b);
        assert((a + b)[0] == a[0]);
        assert(steps_text(a + b, sep) =~= steps_text(a, sep) + steps_text(b, sep));
    }
}

/// A one-step trace prints that step's text.
pub proof fn lemma_steps_text_one(s: Step, sep: Seq<char>)
    ensures
        steps_text(seq![s], sep) == step_text(s, sep),
{
    assert(seq![s].skip(1) =~= Seq::<Step>::empty());
    assert(steps_text(Seq::<Step>::empty(), sep) == Seq::<char>::empty());
    assert(seq![s][0] == s);
    assert(steps_text(seq![s], sep) =~= step_text(s, sep));
}

/// A one-step trace counts one step of its own kind and none of any other.
pub proof fn lemma_count_one(s: Step, k: int)
    ensures
        count_kind(seq![s], k) == if step_kind(s) == k {
            1int
        } else {
            0int
        },
{
    assert(seq![s].skip(1) =~= Seq::<Step>::empty());
    assert(count_kind(Seq::<Step>::empty(), k) == 0);
    assert(seq![s][0] == s);
}

/// Counting distributes over trace concatenation.
pub proof fn lemma_count_concat(a: Seq<Step>, b: Seq<Step>, k: int)
    ensures
        count_kind(a + b, k) == count_kind(a, k) + count_kind(b, k),
    decreases a.len(),
{
    if a.len() == 0 {
        assert(a + b =~= b);
    } else {
        lemma_count_concat(a.skip(1), b, k);
        assert((a + b).skip(1) =~= a.skip(1) + b);
        assert((a + b)[0] == a[0]);
    }
}

/// Appending one cell to a row appends that cell's steps to the row's
/// trace.
pub proof fn lemma_row_steps_snoc(st: ColorState, cells: Seq<GlyphCell>, i: int)
    requires
        0 <= i < cells.len(),
    ensures
        row_steps(st, cells.take(i + 1)) == row_steps(st, cells.take(i)) + cell_steps(
            row_end_state(st, cells.take(i)),
            cells[i],
        ),
        row_end_state(st, cells.take(i + 1)) == next_state(cells[i]),
    decreases i,
{
    assert(cells.take(i + 1).last() == cells[i]);
    if i == 0 {
        assert(cells.take(0) =~= Seq::<GlyphCell>::empty());
        assert(cells.take(1) =~= seq![cells[0]]);
        assert(cells.take(1).skip(1) =~= Seq::<GlyphCell>::empty());
        assert(row_steps(next_state(cells[0]), Seq::<GlyphCell>::empty()) == Seq::<Step>::empty());
        assert(cells.take(1)[0] == cells[0]);
        assert(row_steps(st, cells.take(1)) =~= cell_steps(st, cells[0]));
        assert(row_steps(st, cells.take(0)) =~= Seq::<Step>::empty());
        assert(row_steps(st, cells.take(0)) + cell_steps(row_end_state(st, cells.take(0)), cells[0])
            =~= cell_steps(st, cells[0]));
    } else {
        lemma_row_steps_snoc(next_state(cells[0]), cells.skip(1), i - 1);
        assert(cells.take(i + 1)[0] == cells[0]);
        assert(cells.take(i + 1).skip(1) =~= cells.skip(1).take(i));
        assert(cells.take(i).skip(1) =~= cells.skip(1).take(i - 1));
        assert(cells.take(i)[0] == cells[0]);
        assert(cells.skip(1)[i - 1] == cells[i]);
        assert(row_end_state(st, cells.take(i)) == row_end_state(
            next_state(cells[0]),
            cells.skip(1).take(i - 1),
        )) by {
            if i == 1 {
                assert(cells.skip(1).take(0) =~= Seq::<GlyphCell>::empty());
                assert(cells.take(1).last() == cells[0]);
            } else {
                assert(cells.take(i).last() == cells[i - 1]);
                assert(cells.skip(1).take(i - 1).last() == cells[i - 1]);
            }
        }
        assert(row_steps(st, cells.take(i + 1)) =~= row_steps(st, cells.take(i)) + cell_steps(
            row_end_state(st, cells.take(i)),
            cells[i],
        ));
    }
}

/// Encoding one more row appends that row's steps and one separator to the
/// grid's trace.
pub proof fn lemma_grid_steps_snoc(st: ColorState, cells: Seq<GlyphCell>, cols: int, k: int)
    requires
        k >= 0,
        cols >= 0,
        cols * (k + 1) <= cells.len(),
    ensures
        grid_steps(st, cells, cols, k + 1) == grid_steps(st, cells, cols, k) + row_steps(
            state_after_rows(st, cells, cols, k),
            cells.skip(k * cols).take(cols),
        ) + seq![Step::Sep],
        state_after_rows(st, cells, cols, k + 1) == row_end_state(
            state_after_rows(st, cells, cols, k),
            cells.skip(k * cols).take(cols),
        ),
    decreases k,
{
    if k == 0 {
        assert(cells.skip(0) =~= cells);
        assert(grid_steps(st, cells, cols, 0) == Seq::<Step>::empty());
        assert(grid_steps(
            row_end_state(st, cells.take(cols)),
            cells.skip(cols),
            cols,
            0,
        ) == Seq::<Step>::empty());
        assert(grid_steps(st, cells, cols, 1) =~= row_steps(st, cells.take(cols)) + seq![
            Step::Sep,
        ]);
        assert(grid_steps(st, cells, cols, 0) + row_steps(st, cells.take(cols)) + seq![Step::Sep]
            =~= row_steps(st, cells.take(cols)) + seq![Step::Sep]);
        assert(state_after_rows(
            row_end_state(st, cells.take(cols)),
            cells.skip(cols),
            cols,
            0,
        ) == row_end_state(st, cells.take(cols)));
        assert(state_after_rows(st, cells, cols, 1) == row_end_state(st, cells.take(cols)));
        assert(state_after_rows(st, cells, cols, 0) == st);
    } else {
        let st1 = row_end_state(st, cells.take(cols));
        assert((k - 1) * cols >= 0 && cols + (k - 1) * cols == k * cols && cols * ((k - 1) + 1)
            == cols * k && cols * (k + 1) == cols * k + cols && k * cols == cols * k) by (nonlinear_arith)
            requires
                k >= 1,
                cols >= 0,
        ;
        lemma_grid_steps_snoc(st1, cells.skip(cols), cols, k - 1);
        assert(cells.skip(cols).skip((k - 1) * cols) =~= cells.skip(k * cols)) by {
            vstd::seq_lib::lemma_seq_skip_of_skip(cells, cols, (k - 1) * cols);
        }
        assert(grid_steps(st, cells, cols, k + 1) =~= grid_steps(st, cells, cols, k) + row_steps(
            state_after_rows(st, cells, cols, k),
            cells.skip(k * cols).take(cols),
        ) + seq![Step::Sep]);
        assert(state_after_rows(st, cells, cols, k + 1) == state_after_rows(
            st1,
            cells.skip(cols),
            cols,
            k,
        ));
        assert(state_after_rows(st, cells, cols, k) == state_after_rows(
            st1,
            cells.skip(cols),
            cols,
            k - 1,
        ));
    }
}

/// Size contract: a full grid's trace emits exactly one glyph per cell and
/// exactly one separator per row.
pub proof fn lemma_grid_counts(st: ColorState, cells: Seq<GlyphCell>, cols: int, rows: int)
    requires
        cols >= 0,
        rows >= 0,
        cells.len() == cols * rows,
    ensures
        count_glyphs(grid_steps(st, cells, cols, rows)) == cols * rows,
        count_seps(grid_steps(st, cells, cols, rows)) == rows,
    decreases rows,
{
    if rows == 0 {
        assert(grid_steps(st, cells, cols, rows) == Seq::<Step>::empty());
        assert(count_kind(Seq::<Step>::empty(), 2) == 0);
        assert(count_kind(Seq::<Step>::empty(), 3) == 0);
        assert(cols * rows == 0) by (nonlinear_arith)
            requires
                rows == 0,
        ;
    } else {
        let row = cells.take(cols);
        let rest = cells.skip(cols);
        assert(cols * rows - cols == cols * (rows - 1) && cols <= cols * rows) by (nonlinear_arith)
            requires
                cols >= 0,
                rows >= 1,
        ;
        lemma_row_counts(st, row);
        lemma_grid_counts(row_end_state(st, row), rest, cols, rows - 1);
        lemma_count_concat(row_steps(st, row), seq![Step::Sep], 2);
        lemma_count_concat(row_steps(st, row) + seq![Step::Sep], grid_steps(
            row_end_state(st, row),
            rest,
            cols,
            rows - 1,
        ), 2);
        lemma_count_concat(row_steps(st, row), seq![Step::Sep], 3);
        lemma_count_concat(row_steps(st, row) + seq![Step::Sep], grid_steps(
            row_end_state(st, row),
            rest,
            cols,
            rows - 1,
        ), 3);
        lemma_count_one(Step::Sep, 2);
        lemma_count_one(Step::Sep, 3);
        assert(cols + cols * (rows - 1) == cols * rows) by (nonlinear_arith);
    }
}

/// One row's trace emits exactly one glyph per cell and no separator.
pub proof fn lemma_row_counts(st: ColorState, cells: Seq<GlyphCell>)
    ensures
        count_glyphs(row_steps(st, cells)) == cells.len(),
        count_seps(row_steps(st, cells)) == 0,
    decreases cells.len(),
{
    if cells.len() == 0 {
    } else {
        lemma_row_counts(next_state(cells[0]), cells.skip(1));
        lemma_count_concat(cell_steps(st, cells[0]), row_steps(next_state(cells[0]), cells.skip(1)), 2);
        lemma_count_concat(cell_steps(st, cells[0]), row_steps(next_state(cells[0]), cells.skip(1)), 3);
        lemma_cell_counts(st, cells[0]);
    }
}

/// One cell's trace emits exactly one glyph, no separator, and a color code
/// per channel only when that channel's color changes.
pub proof fn lemma_cell_counts(st: ColorState, cell: GlyphCell)
    ensures
        count_glyphs(cell_steps(st, cell)) == 1,
        count_seps(cell_steps(st, cell)) == 0,
        count_fg(cell_steps(st, cell)) == if st.fg != Some(cell.fg) {
            1int
        } else {
            0int
        },
        count_bg(cell_steps(st, cell)) == if st.bg != Some(cell.bg) {
            1int
        } else {
            0int
        },
{
    let f: Seq<Step> = if st.fg != Some(cell.fg) {
        seq![Step::SetFg(cell.fg)]
    } else {
        Seq::empty()
    };
    let b: Seq<Step> = if st.bg != Some(cell.bg) {
        seq![Step::SetBg(cell.bg)]
    } else {
        Seq::empty()
    };
    assert(count_kind(Seq::<Step>::empty(), 0) == 0);
    assert(count_kind(Seq::<Step>::empty(), 1) == 0);
    assert(count_kind(Seq::<Step>::empty(), 2) == 0);
    assert(count_kind(Seq::<Step>::empty(), 3) == 0);
    lemma_count_one(Step::Glyph(cell.quads), 0);
    lemma_count_one(Step::Glyph(cell.quads), 1);
    lemma_count_one(Step::Glyph(cell.quads), 2);
    lemma_count_one(Step::Glyph(cell.quads), 3);
    if st.fg != Some(cell.fg) {
        lemma_count_one(Step::SetFg(cell.fg), 0);
        lemma_count_one(Step::SetFg(cell.fg), 1);
        lemma_count_one(Step::SetFg(cell.fg), 2);
        lemma_count_one(Step::SetFg(cell.fg), 3);
    }
    if st.bg != Some(cell.bg) {
        lemma_count_one(Step::SetBg(cell.bg), 0);
        lemma_count_one(Step::SetBg(cell.bg), 1);
        lemma_count_one(Step::SetBg(cell.bg), 2);
        lemma_count_one(Step::SetBg(cell.bg), 3);
    }
    lemma_count_concat(f, b, 0);
    lemma_count_concat(f + b, seq![Step::Glyph(cell.quads)], 0);
    lemma_count_concat(f, b, 1);
    lemma_count_concat(f + b, seq![Step::Glyph(cell.quads)], 1);
    lemma_count_concat(f, b, 2);
    lemma_count_concat(f + b, seq![Step::Glyph(cell.quads)], 2);
    lemma_count_concat(f, b, 3);
    lemma_count_concat(f + b, seq![Step::Glyph(cell.quads)], 3);
}

/// Every cell of the sequence carries this one foreground and background
/// color.
pub open spec fn uniform_colors(cells: Seq<GlyphCell>, col: Rgb) -> bool {
    forall|i: int|
        0 <= i < cells.len() ==> (#[trigger] cells[i]).fg == col && cells[i].bg == col
}

/// A take or skip of a one-color cell sequence keeps its one color.
proof fn lemma_uniform_take_skip(cells: Seq<GlyphCell>, col: Rgb, n: int)
    requires
        uniform_colors(cells, col),
        0 <= n <= cells.len(),
    ensures
        uniform_colors(cells.take(n), col),
        uniform_colors(cells.skip(n), col),
{
    let t = cells.take(n);
    let s = cells.skip(n);
    assert forall|i: int| 0 <= i < t.len() implies (#[trigger] t[i]).fg == col && t[i].bg
        == col by {
        assert(t[i] == cells[i]);
    }
    assert forall|i: int| 0 <= i < s.len() implies (#[trigger] s[i]).fg == col && s[i].bg
        == col by {
        assert(s[i] == cells[n + i]);
    }
}

/// A row of cells of one color emits no color code when that color is
/// already active.
pub proof fn lemma_row_no_change(st: ColorState, cells: Seq<GlyphCell>, col: Rgb)
    requires
        uniform_colors(cells, col),
        st.fg == Some(col),
        st.bg == Some(col),
    ensures
        count_fg(row_steps(st, cells)) == 0,
        count_bg(row_steps(st, cells)) == 0,
        row_end_state(st, cells) == st,
    decreases cells.len(),
{
    if cells.len() == 0 {
    } else {
        assert(cells[0].fg == col && cells[0].bg == col);
        assert(next_state(cells[0]) == st);
        lemma_uniform_take_skip(cells, col, 1);
        lemma_row_no_change(st, cells.skip(1), col);
        lemma_cell_counts(st, cells[0]);
        lemma_count_concat(cell_steps(st, cells[0]), row_steps(st, cells.skip(1)), 0);
        lemma_count_concat(cell_steps(st, cells[0]), row_steps(st, cells.skip(1)), 1);
        assert(cells.len() >= 1 ==> cells.last() == cells[cells.len() - 1]);
    }
}

/// A grid of cells of one color emits no color code when that color is
/// already active.
pub proof fn lemma_grid_no_change(
    st: ColorState,
    cells: Seq<GlyphCell>,
    cols: int,
    rows: int,
    col: Rgb,
)
    requires
        uniform_colors(cells, col),
        st.fg == Some(col),
        st.bg == Some(col),
        cols >= 0,
        rows >= 0,
        cells.len() == cols * rows,
    ensures
        count_fg(grid_steps(st, cells, cols, rows)) == 0,
        count_bg(grid_steps(st, cells, cols, rows)) == 0,
    decreases rows,
{
    if rows <= 0 {
    } else {
        let row = cells.take(cols);
        let rest = cells.skip(cols);
        assert(cols <= cols * rows && cols * rows - cols == cols * (rows - 1)) by (nonlinear_arith)
            requires
                cols >= 0,
                rows >= 1,
        ;
        lemma_uniform_take_skip(cells, col, cols);
        lemma_row_no_change(st, row, col);
        lemma_grid_no_change(st, rest, cols, rows - 1, col);
        lemma_count_one(Step::Sep, 0);
        lemma_count_one(Step::Sep, 1);
        lemma_count_concat(row_steps(st, row), seq![Step::Sep], 0);
        lemma_count_concat(row_steps(st, row) + seq![Step::Sep], grid_steps(st, rest, cols, rows - 1), 0);
        lemma_count_concat(row_steps(st, row), seq![Step::Sep], 1);
        lemma_count_concat(row_steps(st, row) + seq![Step::Sep], grid_steps(st, rest, cols, rows - 1), 1);
    }
}

/// Color-code minimality: a nonempty grid whose cells all carry one color
/// emits exactly one foreground and one background color code in all.
pub proof fn lemma_grid_uniform_codes(cells: Seq<GlyphCell>, cols: int, rows: int, col: Rgb)
    requires
        uniform_colors(cells, col),
        cols >= 1,
        rows >= 1,
        cells.len() == cols * rows,
    ensures
        count_fg(grid_steps(init_state(), cells, cols, rows)) == 1,
        count_bg(grid_steps(init_state(), cells, cols, rows)) == 1,
{
    let st = init_state();
    let row = cells.take(cols);
    let rest = cells.skip(cols);
    assert(cols * rows >= cols && cols * rows - cols == cols * (rows - 1)) by (nonlinear_arith)
        requires
            cols >= 1,
            rows >= 1,
    ;
    assert(row.len() == cols);
    lemma_uniform_take_skip(cells, col, cols);
    lemma_uniform_take_skip(row, col, 1);
    // the first cell of the first row emits both codes and sets the state
    assert(row[0].fg == col && row[0].bg == col);
    let on = ColorState { fg: Some(col), bg: Some(col) };
    assert(next_state(row[0]) == on);
    lemma_cell_counts(st, row[0]);
    lemma_row_no_change(on, row.skip(1), col);
    lemma_count_concat(cell_steps(st, row[0]), row_steps(on, row.skip(1)), 0);
    lemma_count_concat(cell_steps(st, row[0]), row_steps(on, row.skip(1)), 1);
    assert(count_fg(row_steps(st, row)) == 1);
    assert(count_bg(row_steps(st, row)) == 1);
    assert(row_end_state(st, row) == on) by {
        if cols == 1 {
            assert(row.last() == row[0]);
        } else {
            assert(row.skip(1).len() > 0);
            assert(row.last() == row.skip(1).last());
        }
    }
    lemma_grid_no_change(on, rest, cols, rows - 1, col);
    lemma_count_one(Step::Sep, 0);
    lemma_count_one(Step::Sep, 1);
    lemma_count_concat(row_steps(st, row), seq![Step::Sep], 0);
    lemma_count_concat(row_steps(st, row) + seq![Step::Sep], grid_steps(on, rest, cols, rows - 1), 0);
    lemma_count_concat(row_steps(st, row), seq![Step::Sep], 1);
    lemma_count_concat(row_steps(st, row) + seq![Step::Sep], grid_steps(on, rest, cols, rows - 1), 1);
}


/// How many cells flip the active foreground color: the first cell counts
/// when its foreground differs from the starting state, every later cell
/// when its foreground differs from the cell before it.
pub open spec fn fg_changes(st: ColorState, cells: Seq<GlyphCell>) -> int
    decreases cells.len(),
{
    if cells.len() == 0 {
        0
    } else {
        (if st.fg != Some(cells[0].fg) {
            1int
        } else {
            0int
        }) + fg_changes(next_state(cells[0]), cells.skip(1))
    }
}

/// How many cells flip the active background color.
pub open spec fn bg_changes(st: ColorState, cells: Seq<GlyphCell>) -> int
    decreases cells.len(),
{
    if cells.len() == 0 {
        0
    } else {
        (if st.bg != Some(cells[0].bg) {
            1int
        } else {
            0int
        }) + bg_changes(next_state(cells[0]), cells.skip(1))
    }
}

/// One row emits exactly one color code per color change, and none
/// otherwise.
proof fn lemma_row_codes_exact(st: ColorState, cells: Seq<GlyphCell>)
    ensures
        count_fg(row_steps(st, cells)) == fg_changes(st, cells),
        count_bg(row_steps(st, cells)) == bg_changes(st, cells),
    decreases cells.len(),
{
    if cells.len() == 0 {
    } else {
        lemma_row_codes_exact(next_state(cells[0]), cells.skip(1));
        lemma_cell_counts(st, cells[0]);
        lemma_count_concat(cell_steps(st, cells[0]), row_steps(next_state(cells[0]), cells.skip(1)), 0);
        lemma_count_concat(cell_steps(st, cells[0]), row_steps(next_state(cells[0]), cells.skip(1)), 1);
    }
}

/// Change counting splits around a concatenation, threading the state a
/// first part leaves behind.
proof fn lemma_changes_split(st: ColorState, a: Seq<GlyphCell>, b: Seq<GlyphCell>)
    ensures
        fg_changes(st, a + b) == fg_changes(st, a) + fg_changes(row_end_state(st, a), b),
        bg_changes(st, a + b) == bg_changes(st, a) + bg_changes(row_end_state(st, a), b),
    decreases a.len(),
{
    if a.len() == 0 {
        assert(a + b =~= b);
    } else {
        lemma_changes_split(next_state(a[0]), a.skip(1), b);
        assert((a + b).skip(1) =~= a.skip(1) + b);
        assert((a + b)[0] == a[0]);
        if a.len() == 1 {
            assert(a.skip(1).len() == 0);
            assert(a.last() == a[0]);
        } else {
            assert(a.last() == a.skip(1).last());
        }
    }
}

/// Color-code minimality, exactly: over a whole grid the encoder emits one
/// foreground color code per foreground change and one background color
/// code per background change, in row-major order, and no code at all for
/// an unchanged color.
pub proof fn lemma_grid_code_minimality(
    st: ColorState,
    cells: Seq<GlyphCell>,
    cols: int,
    rows: int,
)
    requires
        cols >= 0,
        rows >= 0,
        cells.len() == cols * rows,
    ensures
        count_fg(grid_steps(st, cells, cols, rows)) == fg_changes(st, cells),
        count_bg(grid_steps(st, cells, cols, rows)) == bg_changes(st, cells),
    decreases rows,
{
    if rows == 0 {
        assert(grid_steps(st, cells, cols, rows) == Seq::<Step>::empty());
        assert(count_kind(Seq::<Step>::empty(), 0) == 0);
        assert(count_kind(Seq::<Step>::empty(), 1) == 0);
        assert(cols * rows == 0) by (nonlinear_arith)
            requires
                rows == 0,
        ;
        assert(cells =~= Seq::<GlyphCell>::empty());
    } else {
        let row = cells.take(cols);
        let rest = cells.skip(cols);
        assert(cols <= cols * rows && cols * rows - cols == cols * (rows - 1)) by (nonlinear_arith)
            requires
                cols >= 0,
                rows >= 1,
        ;
        lemma_row_codes_exact(st, row);
        lemma_grid_code_minimality(row_end_state(st, row), rest, cols, rows - 1);
        lemma_count_one(Step::Sep, 0);
        lemma_count_one(Step::Sep, 1);
        lemma_count_concat(row_steps(st, row), seq![Step::Sep], 0);
        lemma_count_concat(row_steps(st, row) + seq![Step::Sep], grid_steps(
            row_end_state(st, row),
            rest,
            cols,
            rows - 1,
        ), 0);
        lemma_count_concat(row_steps(st, row), seq![Step::Sep], 1);
        lemma_count_concat(row_steps(st, row) + seq![Step::Sep], grid_steps(
            row_end_state(st, row),
            rest,
            cols,
            rows - 1,
        ), 1);
        lemma_changes_split(st, row, rest);
        assert(row + rest =~= cells);
    }
}

fn same_color(prev: &Option<Rgb>, c: Rgb) -> (r: bool)
    ensures
        r == (*prev == Some(c)),
{
    match prev {
        Some(p) => p.r == c.r && p.g == c.g && p.b == c.b,
        None => false,
    }
}

/// Encodes the row-major cell sequence of a grid into one output string,
/// emitting color codes only on change and the row separator after each
/// row.
pub fn encode(cells: &Vec<GlyphCell>, columns: usize, rows: usize, sep: &str) -> (out: String)
    requires
        cells@.len() == columns * rows,
        forall|i: int| 0 <= i < cells@.len() ==> (#[trigger] cells@[i]).wf(),
    ensures
        out@ == steps_text(
            grid_steps(init_state(), cells@, columns as int, rows as int),
            sep@,
        ),
{
    let n = cells.len();
    let mut out = String::new();
    let mut cur_fg: Option<Rgb> = None;
    let mut cur_bg: Option<Rgb> = None;
    let mut idx: usize = 0;
    let mut cy: usize = 0;
    proof {
        assert(grid_steps(init_state(), cells@, columns as int, 0) =~= Seq::<Step>::empty());
    }
    while cy < rows
        invariant
            cells@.len() == columns * rows,
            cells@.len() == n,
            forall|i: int| 0 <= i < cells@.len() ==> (#[trigger] cells@[i]).wf(),
            cy <= rows,
            idx == cy * columns,
            (ColorState { fg: cur_fg, bg: cur_bg }) == state_after_rows(
                init_state(),
                cells@,
                columns as int,
                cy as int,
            ),
            out@ == steps_text(
                grid_steps(init_state(), cells@, columns as int, cy as int),
                sep@,
            ),
        decreases rows - cy,
    {
        let ghost st0 = ColorState { fg: cur_fg, bg: cur_bg };
        let ghost row = cells@.skip(cy as int * columns as int).take(columns as int);
        let ghost out0 = out@;
        proof {
            assert((cy as int) * (columns as int) + (columns as int) <= (columns as int) * (
            rows as int)) by (nonlinear_arith)
                requires
                    0 <= cy as int,
                    (cy as int) < (rows as int),
            ;
        }
        let mut cx: usize = 0;
        while cx < columns
            invariant
                cells@.len() == columns * rows,
                cells@.len() == n,
                forall|i: int| 0 <= i < cells@.len() ==> (#[trigger] cells@[i]).wf(),
                cy < rows,
                cx <= columns,
                idx == cy * columns + cx,
                idx <= cells@.len(),
                cy * columns + columns <= cells@.len(),
                row == cells@.skip(cy as int * columns as int).take(columns as int),
                (ColorState { fg: cur_fg, bg: cur_bg }) == row_end_state(st0, row.take(cx as int)),
                out@ == out0 + steps_text(row_steps(st0, row.take(cx as int)), sep@),
            decreases columns - cx,
        {
            let cell = cells[idx];
            proof {
                assert(row[cx as int] == cells@[idx as int]);
            }
            let ghost st_cell = ColorState { fg: cur_fg, bg: cur_bg };
            if !same_color(&cur_fg, cell.fg) {
                let code = crate::codes::fg(cell.fg);
                out.append(code.as_str());
                cur_fg = Some(cell.fg);
            }
            if !same_color(&cur_bg, cell.bg) {
                let code = crate::codes::bg(cell.bg);
                out.append(code.as_str());
                cur_bg = Some(cell.bg);
            }
            push_char(&mut out, glyph_char(cell.quads));
            proof {
                let fpart: Seq<Step> = if st_cell.fg != Some(cell.fg) {
                    seq![Step::SetFg(cell.fg)]
                } else {
                    Seq::empty()
                };
                let bpart: Seq<Step> = if st_cell.bg != Some(cell.bg) {
                    seq![Step::SetBg(cell.bg)]
                } else {
                    Seq::empty()
                };
                lemma_steps_text_one(Step::Glyph(cell.quads), sep@);
                lemma_steps_text_concat(fpart, bpart, sep@);
                lemma_steps_text_concat(fpart + bpart, seq![Step::Glyph(cell.quads)], sep@);
                if st_cell.fg != Some(cell.fg) {
                    lemma_steps_text_one(Step::SetFg(cell.fg), sep@);
                }
                if st_cell.bg != Some(cell.bg) {
                    lemma_steps_text_one(Step::SetBg(cell.bg), sep@);
                }
                lemma_row_steps_snoc(st0, row, cx as int);
                lemma_steps_text_concat(
                    row_steps(st0, row.take(cx as int)),
                    cell_steps(st_cell, cell),
                    sep@,
                );
                assert(steps_text(cell_steps(st_cell, cell), sep@) =~= steps_text(fpart, sep@)
                    + steps_text(bpart, sep@) + seq![glyph_char_spec(cell.quads as int)]);
                assert(out@ =~= out0 + steps_text(row_steps(st0, row.take(cx as int + 1)), sep@));
            }
            idx = idx + 1;
            cx = cx + 1;
        }
        out.append(sep);
        cy = cy + 1;
        proof {
            assert((cy as int) * (columns as int) == (cy as int - 1) * (columns as int) + (
            columns as int)) by (nonlinear_arith);
            assert((columns as int) * (cy as int) <= (columns as int) * (rows as int) && (
            columns as int) * (cy as int) == (cy as int) * (columns as int)) by (nonlinear_arith)
                requires
                    (cy as int) <= (rows as int),
                    (columns as int) >= 0,
            ;
            assert(row.take(columns as int) =~= row);
            lemma_grid_steps_snoc(init_state(), cells@, columns as int, cy as int - 1);
            lemma_steps_text_concat(
                grid_steps(init_state(), cells@, columns as int, cy as int - 1),
                row_steps(st0, row),
                sep@,
            );
            lemma_steps_text_concat(
                grid_steps(init_state(), cells@, columns as int, cy as int - 1) + row_steps(
                    st0,
                    row,
                ),
                seq![Step::Sep],
                sep@,
            );
            lemma_steps_text_one(Step::Sep, sep@);
            assert(out@ =~= steps_text(
                grid_steps(init_state(), cells@, columns as int, cy as int),
                sep@,
            ));
        }
    }
    out
}

} // verus!
