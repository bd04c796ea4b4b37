//! The fixed quarter-block glyph set.
//!
//! A cell's glyph is chosen by a four-bit mask saying which of its quadrants
//! are drawn in the foreground color: bit 0 is the top-left quadrant, bit 1
//! the top-right, bit 2 the bottom-left, bit 3 the bottom-right. The set is
//! closed and total: each of the sixteen masks has exactly one glyph, from
//! the space through the quarter-, half- and three-quarter-blocks to the
//! full block.

use vstd::prelude::*;

verus! {

/// The glyph drawn for an on-quadrant mask.
pub open spec fn glyph_char_spec(m: int) -> char {
    if m == 0 {
        ' '
    } else if m == 1 {
        '\u{2598}'
    } else if m == 2 {
        '\u{259D}'
    } else if m == 3 {
        '\u{2580}'
    } else if m == 4 {
        '\u{2596}'
    } else if m == 5 {
        '\u{258C}'
    } else if m == 6 {
        '\u{259E}'
    } else if m == 7 {
        '\u{259B}'
    } else if m == 8 {
        '\u{2597}'
    } else if m == 9 {
        '\u{259A}'
    } else if m == 10 {
        '\u{2590}'
    } else if m == 11 {
        '\u{259C}'
    } else if m == 12 {
        '\u{2584}'
    } else if m == 13 {
        '\u{2599}'
    } else if m == 14 {
        '\u{259F}'
    } else {
        '\u{2588}'
    }
}

/// The on-quadrant mask a glyph stands for; `-1` for a character outside
/// the set.
pub open spec fn mask_of_glyph(c: char) -> int {
    if c == ' ' {
        0
    } else if c == '\u{2598}' {
        1
    } else if c == '\u{259D}' {
        2
    } else if c == '\u{2580}' {
        3
    } else if c == '\u{2596}' {
        4
    } else if c == '\u{258C}' {
        5
    } else if c == '\u{259E}' {
        6
    } else if c == '\u{259B}' {
        7
    } else if c == '\u{2597}' {
        8
    } else if c == '\u{259A}' {
        9
    } else if c == '\u{2590}' {
        10
    } else if c == '\u{259C}' {
        11
    } else if c == '\u{2584}' {
        12
    } else if c == '\u{2599}' {
        13
    } else if c == '\u{259F}' {
        14
    } else if c == '\u{2588}' {
        15
    } else {
        -1
    }
}

/// Glyph totality: every on/off quadrant combination maps to exactly one
/// glyph of the fixed set, and distinct combinations map to distinct glyphs.
pub proof fn lemma_glyph_totality()
    ensures
        forall|m: int| 0 <= m < 16 ==> mask_of_glyph(#[trigger] glyph_char_spec(m)) == m,
        forall|m1: int, m2: int|
            0 <= m1 < 16 && 0 <= m2 < 16 && m1 != m2 ==> #[trigger] glyph_char_spec(m1)
                != #[trigger] glyph_char_spec(m2),
{
    assert forall|m: int| 0 <= m < 16 implies mask_of_glyph(#[trigger] glyph_char_spec(m))
        == m by {
        assert(mask_of_glyph(glyph_char_spec(m)) == m);
    }
}

/// Looks up the glyph for an on-quadrant mask.
pub fn glyph_char(m: u8) -> (c: char)
    requires
        m < 16,
    ensures
        c == glyph_char_spec(m as int),
{
    if m == 0 {
        ' '
    } else if m == 1 {
        '\u{2598}'
    } else if m == 2 {
        '\u{259D}'
    } else if m == 3 {
        '\u{2580}'
    } else if m == 4 {
        '\u{2596}'
    } else if m == 5 {
        '\u{258C}'
    } else if m == 6 {
        '\u{259E}'
    } else if m == 7 {
        '\u{259B}'
    } else if m == 8 {
        '\u{2597}'
    } else if m == 9 {
        '\u{259A}'
    } else if m == 10 {
        '\u{2590}'
    } else if m == 11 {
        '\u{259C}'
    } else if m == 12 {
        '\u{2584}'
    } else if m == 13 {
        '\u{2599}'
    } else if m == 14 {
        '\u{259F}'
    } else {
        '\u{2588}'
    }
}

} // verus!
