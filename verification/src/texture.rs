//! A source image for the textured-disk pass: a flat row-major array of
//! packed colors. Decoding image files is outside the library; callers hand
//! in ready pixel data.

use vstd::prelude::*;
use crate::fixed::clip;

verus! {

/// Largest supported texture dimension.
pub const MAX_TEX_DIM: usize = 4096;

pub struct Texture {
    pub width: usize,
    pub height: usize,
    pub pixels: Vec<u32>,
}

impl Texture {
    /// A usable texture: nonempty, bounded, one color per cell.
    pub open spec fn wf(self) -> bool {
        &&& 1 <= self.width <= MAX_TEX_DIM
        &&& 1 <= self.height <= MAX_TEX_DIM
        &&& self.pixels.len() == self.width * self.height
    }

    /// The color at a cell, with coordinates clamped onto the image.
    pub open spec fn texel(self, x: int, y: int) -> u32 {
        let cx = clip(x, 0, self.width - 1);
        let cy = clip(y, 0, self.height - 1);
        self.pixels@[cy * self.width + cx]
    }

    /// Wrap ready pixel data as a texture.
    pub fn new(width: usize, height: usize, pixels: Vec<u32>) -> (r: Texture)
        requires
            1 <= width <= MAX_TEX_DIM,
            1 <= height <= MAX_TEX_DIM,
            pixels.len() == width * height,
        ensures
            r.wf(),
            r.width == width,
            r.height == height,
            r.pixels == pixels,
    {
        Texture { width, height, pixels }
    }

    /// A single-color texture.
    pub fn solid(width: usize, height: usize, color: u32) -> (r: Texture)
        requires
            1 <= width <= MAX_TEX_DIM,
            1 <= height <= MAX_TEX_DIM,
        ensures
            r.wf(),
            r.width == width,
            r.height == height,
            forall|x: int, y: int| 0 <= x && 0 <= y ==> #[trigger] r.texel(x, y) == color,
    {
        proof {
            assert(width * height <= MAX_TEX_DIM * MAX_TEX_DIM) by (nonlinear_arith)
                requires
                    width <= MAX_TEX_DIM,
                    height <= MAX_TEX_DIM,
            ;
        }
        let n: usize = width * height;
        let mut pixels: Vec<u32> = Vec::new();
        let mut i: usize = 0;
        while i < n
            invariant
                i <= n,
                pixels.len() == i,
                forall|k: int| 0 <= k < i ==> pixels@[k] == color,
            decreases n - i,
        {
            pixels.push(color);
            i = i + 1;
        }
        let t = Texture { width, height, pixels };
        proof {
            assert forall|x: int, y: int| 0 <= x && 0 <= y implies #[trigger] t.texel(x, y)
                == color by {
                let cx = clip(x, 0, width - 1);
                let cy = clip(y, 0, height - 1);
                assert(0 <= cy * width + cx < width * height) by (nonlinear_arith)
                    requires
                        0 <= cx < width,
                        0 <= cy < height,
                ;
            }
        }
        t
    }

    /// The clamped color lookup.
    pub fn sample(&self, x: i64, y: i64) -> (r: u32)
        requires
            self.wf(),
        ensures
            r == self.texel(x as int, y as int),
    {
        let cx: usize = if x < 0 {
            0
        } else if x > (self.width - 1) as i64 {
            self.width - 1
        } else {
            x as usize
        };
        let cy: usize = if y < 0 {
            0
        } else if y > (self.height - 1) as i64 {
            self.height - 1
        } else {
            y as usize
        };
        proof {
            assert(0 <= cy * self.width + cx < self.width * self.height) by (nonlinear_arith)
                requires
                    0 <= cx < self.width,
                    0 <= cy < self.height,
            ;
        }
        self.pixels[cy * self.width + cx]
    }
}

} // verus!
