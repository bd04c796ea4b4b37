use termal::{render, Raster, TexelError};

fn solid_samples(w: usize, h: usize, rgb: (u8, u8, u8)) -> Vec<u8> {
    let mut v = Vec::new();
    for _ in 0..w * h {
        v.push(rgb.0);
        v.push(rgb.1);
        v.push(rgb.2);
    }
    v
}

#[test]
fn raster_construction_checks_inputs() {
    assert_eq!(
        Raster::from_rgb(vec![0; 12], 0, 2).unwrap_err(),
        TexelError::InvalidRaster
    );
    assert_eq!(
        Raster::from_rgb(vec![0; 12], 2, 0).unwrap_err(),
        TexelError::InvalidRaster
    );
    assert_eq!(
        Raster::from_rgb(vec![0; 11], 2, 2).unwrap_err(),
        TexelError::InvalidRaster
    );
    assert!(Raster::from_rgb(vec![0; 12], 2, 2).is_ok());
}

#[test]
fn render_rejects_zero_target() {
    let img = Raster::from_rgb(vec![0; 12], 2, 2).unwrap();
    assert_eq!(
        render(&img, Some(0), None, "\n").unwrap_err(),
        TexelError::InvalidTarget
    );
    assert_eq!(
        render(&img, None, Some(0), "\n").unwrap_err(),
        TexelError::InvalidTarget
    );
    assert_eq!(
        render(&img, Some(0), Some(3), "\n").unwrap_err(),
        TexelError::InvalidTarget
    );
}

#[test]
fn render_two_tone_single_cell() {
    // top row red, bottom row blue: the cell must become the upper-half
    // glyph with a red foreground over a blue background
    let samples = vec![
        255, 0, 0, 255, 0, 0, //
        0, 0, 255, 0, 0, 255,
    ];
    let img = Raster::from_rgb(samples, 2, 2).unwrap();
    let out = render(&img, Some(1), Some(1), "\n").unwrap();
    assert_eq!(out, "\x1b[38;2;255;0;0m\x1b[48;2;0;0;255m\u{2580}\n");
}

#[test]
fn render_is_deterministic() {
    let samples: Vec<u8> = (0..5 * 4 * 3).map(|i| (i * 37 % 256) as u8).collect();
    let a = Raster::from_rgb(samples.clone(), 5, 4).unwrap();
    let b = Raster::from_rgb(samples, 5, 4).unwrap();
    let out1 = render(&a, Some(3), Some(2), "\n").unwrap();
    let out2 = render(&b, Some(3), Some(2), "\n").unwrap();
    assert_eq!(out1, out2);
}

#[test]
fn render_solid_color_emits_one_code_pair() {
    let img = Raster::from_rgb(solid_samples(5, 3, (10, 20, 30)), 5, 3).unwrap();
    let out = render(&img, Some(4), Some(2), "\n").unwrap();
    assert_eq!(
        out,
        "\x1b[38;2;10;20;30m\x1b[48;2;10;20;30m\u{2588}\u{2588}\u{2588}\u{2588}\n\u{2588}\u{2588}\u{2588}\u{2588}\n"
    );
    assert_eq!(out.matches("\x1b[38;2").count(), 1);
    assert_eq!(out.matches("\x1b[48;2").count(), 1);
}

#[test]
fn render_output_sizes() {
    let glyphs = [
        ' ', '\u{2598}', '\u{259D}', '\u{2580}', '\u{2596}', '\u{258C}', '\u{259E}', '\u{259B}',
        '\u{2597}', '\u{259A}', '\u{2590}', '\u{259C}', '\u{2584}', '\u{2599}', '\u{259F}',
        '\u{2588}',
    ];
    let samples: Vec<u8> = (0..4 * 4 * 3).map(|i| (i * 53 % 256) as u8).collect();
    let img = Raster::from_rgb(samples, 4, 4).unwrap();
    let out = render(&img, Some(2), Some(2), "|").unwrap();
    assert_eq!(out.matches('|').count(), 2);
    let glyph_count = out.chars().filter(|c| glyphs.contains(c)).count();
    assert_eq!(glyph_count, 2 * 2);
}

#[test]
fn render_derives_height_from_width() {
    // 256x256 raster at 80 columns: rows = (80*256 + 256) / (2*256) = 40
    let img = Raster::from_rgb(solid_samples(256, 256, (1, 1, 1)), 256, 256).unwrap();
    let out = render(&img, Some(80), None, "\n").unwrap();
    assert_eq!(out.matches('\n').count(), 40);
    // 100x50 raster at 50 columns: rows = (50*50 + 100) / (2*100) = 13
    let img2 = Raster::from_rgb(solid_samples(100, 50, (1, 1, 1)), 100, 50).unwrap();
    let out2 = render(&img2, Some(50), None, "\n").unwrap();
    assert_eq!(out2.matches('\n').count(), 13);
}

#[test]
fn render_derives_width_from_height() {
    // 100x50 raster at 10 rows: columns = (2*10*100 + 25) / 50 = 40
    let img = Raster::from_rgb(solid_samples(100, 50, (7, 7, 7)), 100, 50).unwrap();
    let out = render(&img, None, Some(10), "\n").unwrap();
    assert_eq!(out.matches('\n').count(), 10);
    let first_row = out.split('\n').next().unwrap();
    assert_eq!(first_row.chars().filter(|&c| c == '\u{2588}').count(), 40);
}

#[test]
fn render_default_grid() {
    // 8x8 raster with no target: columns = (8+1)/2 = 4, rows = (4*8+8)/16 = 2
    let img = Raster::from_rgb(solid_samples(8, 8, (9, 9, 9)), 8, 8).unwrap();
    let out = render(&img, None, None, "\n").unwrap();
    assert_eq!(out.matches('\n').count(), 2);
    assert_eq!(out.chars().filter(|&c| c == '\u{2588}').count(), 8);
}

#[test]
fn render_tiny_raster_large_grid() {
    // a 1x1 raster stretched over a 3x2 grid: every cell falls back to the
    // single pixel's color
    let img = Raster::from_rgb(vec![200, 100, 50], 1, 1).unwrap();
    let out = render(&img, Some(3), Some(2), "\n").unwrap();
    assert_eq!(out.matches('\n').count(), 2);
    assert_eq!(out.chars().filter(|&c| c == '\u{2588}').count(), 6);
    assert_eq!(out.matches("\x1b[38;2;200;100;50m").count(), 1);
}

#[test]
fn render_emits_codes_only_on_change() {
    // two solid bands: the color codes appear once per band, not per cell
    let mut samples = solid_samples(4, 4, (255, 0, 0));
    samples.extend(solid_samples(4, 4, (0, 0, 255)));
    let img = Raster::from_rgb(samples, 4, 8).unwrap();
    let out = render(&img, Some(2), Some(2), "\n").unwrap();
    assert_eq!(
        out,
        "\x1b[38;2;255;0;0m\x1b[48;2;255;0;0m\u{2588}\u{2588}\n\x1b[38;2;0;0;255m\x1b[48;2;0;0;255m\u{2588}\u{2588}\n"
    );
    assert_eq!(out.matches("\x1b[38;2").count(), 2);
    assert_eq!(out.matches("\x1b[48;2").count(), 2);
}
