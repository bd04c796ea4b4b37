//! Terminal rendering library: ANSI escape-code builders and a raster-to-glyph
//! renderer that draws an RGB image with partial-block characters and
//! true-color escape sequences.

pub mod codes;
pub mod colorize;
pub mod digits;
pub mod encode;
pub mod glyph;
pub mod grid;
pub mod quantize;
pub mod raster;
pub mod render;
pub mod resample;
pub mod rgb;
pub mod sample;

pub use grid::TargetGrid;
pub use quantize::GlyphCell;
pub use raster::{Raster, TexelError};
pub use render::render;
pub use rgb::Rgb;
