//! The pixel buffer: a flat row-major array of packed 32-bit colors with
//! bounds-tolerant writes. Out-of-range coordinates are silently ignored,
//! which lets every drawing routine rely on per-pixel clipping instead of
//! clipping primitives up front.

use vstd::prelude::*;

verus! {

/// Widest supported framebuffer dimension, so index arithmetic stays small.
pub const MAX_DIM: usize = 16384;

/// The buffer after one bounds-checked pixel write: unchanged when `(x, y)`
/// falls outside `[0, w) x [0, h)`, else updated at the row-major index.
pub open spec fn put_spec(buf: Seq<u32>, w: int, h: int, x: int, y: int, c: u32) -> Seq<u32> {
    if 0 <= x < w && 0 <= y < h {
        buf.update(y * w + x, c)
    } else {
        buf
    }
}

/// A row-major index decomposes into coordinates under the row width.
pub proof fn lemma_row_major(w: int, h: int, x: int, y: int)
    requires
        0 <= x < w,
        0 <= y < h,
    ensures
        0 <= y * w + x < w * h,
        (y * w + x) % w == x,
        (y * w + x) / w == y,
{
    assert(0 <= y * w + x < w * h) by (nonlinear_arith)
        requires
            0 <= x < w,
            0 <= y < h,
    ;
    vstd::arithmetic::div_mod::lemma_fundamental_div_mod_converse(y * w + x, w, y, x);
}

pub struct FrameBuffer {
    pub width: usize,
    pub height: usize,
    pub pixels: Vec<u32>,
}

impl FrameBuffer {
    /// The buffer holds exactly one packed color per screen cell.
    pub open spec fn wf(self) -> bool {
        &&& self.width <= MAX_DIM
        &&& self.height <= MAX_DIM
        &&& self.pixels.len() == self.width * self.height
    }

    /// A fresh buffer of the given size, every pixel black.
    pub fn new(width: usize, height: usize) -> (r: FrameBuffer)
        requires
            width <= MAX_DIM,
            height <= MAX_DIM,
        ensures
            r.wf(),
            r.width == width,
            r.height == height,
            forall|k: int| 0 <= k < r.pixels@.len() ==> r.pixels@[k] == 0u32,
    {
        proof {
            assert(width * height <= MAX_DIM * MAX_DIM) by (nonlinear_arith)
                requires
                    width <= MAX_DIM,
                    height <= MAX_DIM,
            ;
        }
        let n: usize = width * height;
        let mut pixels: Vec<u32> = Vec::new();
        let mut i: usize = 0;
        while i < n
            invariant
                i <= n,
                pixels.len() == i,
                forall|k: int| 0 <= k < i ==> pixels@[k] == 0u32,
            decreases n - i,
        {
            pixels.push(0u32);
            i = i + 1;
        }
        FrameBuffer { width, height, pixels }
    }

    /// Overwrite every pixel with one color.
    pub fn clear(&mut self, color: u32)
        requires
            old(self).wf(),
        ensures
            final(self).wf(),
            final(self).width == old(self).width,
            final(self).height == old(self).height,
            final(self).pixels@.len() == old(self).pixels@.len(),
            forall|k: int| 0 <= k < final(self).pixels@.len() ==> final(self).pixels@[k] == color,
    {
        let n: usize = self.pixels.len();
        let mut i: usize = 0;
        while i < n
            invariant
                i <= n,
                self.pixels.len() == n,
                self.width == old(self).width,
                self.height == old(self).height,
                n == old(self).pixels@.len(),
                forall|k: int| 0 <= k < i ==> self.pixels@[k] == color,
            decreases n - i,
        {
            self.pixels[i] = color;
            i = i + 1;
        }
    }

    /// Write one pixel; writes outside the buffer are silently dropped.
    pub fn put_pixel(&mut self, x: i32, y: i32, color: u32)
        requires
            old(self).wf(),
        ensures
            final(self).wf(),
            final(self).width == old(self).width,
            final(self).height == old(self).height,
            final(self).pixels@ == put_spec(
                old(self).pixels@,
                old(self).width as int,
                old(self).height as int,
                x as int,
                y as int,
                color,
            ),
    {
        if x >= 0 && y >= 0 && (x as usize) < self.width && (y as usize) < self.height {
            proof {
                lemma_row_major(self.width as int, self.height as int, x as int, y as int);
            }
            let idx: usize = (y as usize) * self.width + (x as usize);
            self.pixels[idx] = color;
        }
    }

    /// Bounds-checked pixel write on wide coordinates, for drawing routines
    /// whose intermediate coordinates do not fit an `i32`.
    pub fn put_px_wide(&mut self, x: i64, y: i64, color: u32)
        requires
            old(self).wf(),
        ensures
            final(self).wf(),
            final(self).width == old(self).width,
            final(self).height == old(self).height,
            final(self).pixels@ == put_spec(
                old(self).pixels@,
                old(self).width as int,
                old(self).height as int,
                x as int,
                y as int,
                color,
            ),
    {
        if x >= 0 && y >= 0 && x < self.width as i64 && y < self.height as i64 {
            proof {
                lemma_row_major(self.width as int, self.height as int, x as int, y as int);
            }
            let idx: usize = (y as usize) * self.width + (x as usize);
            self.pixels[idx] = color;
        }
    }
}

} // verus!
