use crate::rgb::Rgb;
use vstd::prelude::*;

verus! {

/// The errors the renderer reports.
#[derive(Clone, Copy, Debug, PartialEq, Eq, Structural)]
pub enum TexelError {
    /// The sample buffer length does not match the dimensions, or a raster
    /// dimension is zero.
    InvalidRaster,
    /// An explicitly supplied target dimension is zero.
    InvalidTarget,
}

/// An immutable rectangular RGB raster: row-major, three bytes per pixel
/// (red, green, blue), no alpha.
#[derive(Debug)]
pub struct Raster {
    pub width: usize,
    pub height: usize,
    pub samples: Vec<u8>,
}

impl Raster {
    /// Both dimensions are positive and the sample buffer holds exactly
    /// three bytes per pixel.
    pub open spec fn wf(self) -> bool {
        &&& self.width >= 1
        &&& self.height >= 1
        &&& self.samples@.len() == self.width * self.height * 3
    }

    /// The byte offset of the pixel at a column and row.
    pub open spec fn offset(self, x: int, y: int) -> int {
        3 * (y * self.width + x)
    }

    /// The color of the pixel at a column and row.
    pub open spec fn px(self, x: int, y: int) -> Rgb
        recommends
            self.wf(),
            0 <= x < self.width,
            0 <= y < self.height,
    {
        Rgb {
            r: self.samples@[self.offset(x, y)],
            g: self.samples@[self.offset(x, y) + 1],
            b: self.samples@[self.offset(x, y) + 2],
        }
    }

    /// A pixel's sample bytes lie inside the buffer.
    pub proof fn lemma_offset_in_bounds(self, x: int, y: int)
        requires
            self.wf(),
            0 <= x < self.width,
            0 <= y < self.height,
        ensures
            0 <= self.offset(x, y),
            self.offset(x, y) + 2 < self.samples@.len(),
    {
        assert(y * self.width + x < self.width * self.height) by (nonlinear_arith)
            requires
                0 <= x < self.width,
                0 <= y < self.height,
        ;
        assert(0 <= y * self.width) by (nonlinear_arith)
            requires
                0 <= y,
                0 <= self.width,
        ;
    }

    /// Builds a raster from an already decoded RGB byte buffer. Zero
    /// dimensions or a buffer whose length is not `width * height * 3` are
    /// rejected, never silently truncated.
    pub fn from_rgb(samples: Vec<u8>, width: usize, height: usize) -> (res: Result<
        Raster,
        TexelError,
    >)
        ensures
            res matches Ok(img) ==> {
                &&& img.wf()
                &&& img.width == width
                &&& img.height == height
                &&& img.samples@ == samples@
            },
            res matches Err(e) ==> e == TexelError::InvalidRaster,
            res is Ok <==> (width >= 1 && height >= 1 && samples@.len() == width * height * 3),
    {
        let n = samples.len();
        if width == 0 || height == 0 {
            return Err(TexelError::InvalidRaster);
        }
        let pixels = match width.checked_mul(height) {
            Some(p) => p,
            None => {
                proof {
                    assert(n < width * height * 3) by (nonlinear_arith)
                        requires
                            width * height > usize::MAX,
                            n <= usize::MAX,
                    ;
                }
                return Err(TexelError::InvalidRaster);
            },
        };
        let expected = match pixels.checked_mul(3) {
            Some(t) => t,
            None => {
                return Err(TexelError::InvalidRaster);
            },
        };
        if n != expected {
            return Err(TexelError::InvalidRaster);
        }
        Ok(Raster { width, height, samples })
    }

    /// Returns the raster width in pixels.
    pub fn get_width(&self) -> (w: usize)
        ensures
            w == self.width,
    {
        self.width
    }

    /// Returns the raster height in pixels.
    pub fn get_height(&self) -> (h: usize)
        ensures
            h == self.height,
    {
        self.height
    }

    /// Reads the pixel at a column and row.
    pub fn pixel(&self, x: usize, y: usize) -> (c: Rgb)
        requires
            self.wf(),
            x < self.width,
            y < self.height,
        ensures
            c == self.px(x as int, y as int),
    {
        let n = self.samples.len();
        proof {
            self.lemma_offset_in_bounds(x as int, y as int);
        }
        let idx = 3 * (y * self.width + x);
        Rgb { r: self.samples[idx], g: self.samples[idx + 1], b: self.samples[idx + 2] }
    }
}

} // verus!
