use termal::glyph::glyph_char;

#[test]
fn every_mask_has_its_own_glyph() {
    let glyphs: Vec<char> = (0u8..16).map(glyph_char).collect();
    for a in 0..16 {
        for b in 0..16 {
            if a != b {
                assert_ne!(glyphs[a], glyphs[b]);
            }
        }
    }
    assert_eq!(glyphs[0], ' ');
    assert_eq!(glyphs[3], '\u{2580}');
    assert_eq!(glyphs[5], '\u{258C}');
    assert_eq!(glyphs[10], '\u{2590}');
    assert_eq!(glyphs[12], '\u{2584}');
    assert_eq!(glyphs[15], '\u{2588}');
}
