//! The background pass: a vertical gradient from near-black to dark blue,
//! with pseudo-random stars of three brightnesses hashed from the pixel
//! coordinates.

use vstd::prelude::*;
use vstd::arithmetic::div_mod::*;
use crate::renderer::Renderer;

verus! {

/// The star hash: a coordinate mix reduced to one byte. Values 0 and 1 give
/// a dim star, 3 a medium one, 4 a bright one; everything else is sky.
pub open spec fn star_hash(x: u32, y: u32) -> u32 {
    ((((x as u64) * 73856093) as u32) ^ (((y as u64) * 19349663) as u32)) & 0xFF
}

/// The gradient color of a row: brightest at the top, fading downward.
pub open spec fn sky_gradient(y: int, h: int) -> u32 {
    let rr = (5 * (h - y)) / h;
    let gg = (8 * (h - y)) / h;
    let bb = 20 + (30 * (h - y)) / h;
    0xFF000000u32 | ((rr as u32) << 16) | ((gg as u32) << 8) | (bb as u32)
}

/// The color of one background pixel: a star where the hash selects one,
/// else the row's gradient color.
pub open spec fn sky_pixel(x: int, y: int, h: int) -> u32 {
    let v = star_hash(x as u32, y as u32);
    if v < 2 {
        0xFF202020u32
    } else if v == 3 {
        0xFF606060u32
    } else if v == 4 {
        0xFFFFFFFFu32
    } else {
        sky_gradient(y, h)
    }
}

/// Fill the whole buffer with the background: every pixel takes its
/// position's sky color.
pub fn draw_skybox(renderer: &mut Renderer)
    requires
        old(renderer).wf(),
    ensures
        final(renderer).wf(),
        final(renderer).width == old(renderer).width,
        final(renderer).height == old(renderer).height,
        final(renderer).pixels().len() == old(renderer).pixels().len(),
        forall|k: int|
            0 <= k < final(renderer).pixels().len() ==> final(renderer).pixels()[k] == sky_pixel(
                k % (old(renderer).width as int),
                k / (old(renderer).width as int),
                old(renderer).height as int,
            ),
{
    let w = renderer.width;
    let h = renderer.height;
    let ghost wi = w as int;
    let ghost hi = h as int;
    let ghost len = renderer.pixels().len() as int;
    let ghost buf0 = renderer.pixels();
    let mut y: usize = 0;
    while y < h
        invariant
            renderer.wf(),
            renderer.width == old(renderer).width,
            renderer.height == old(renderer).height,
            w == renderer.width,
            h == renderer.height,
            wi == w as int,
            hi == h as int,
            len == renderer.pixels().len(),
            len == buf0.len(),
            y <= h,
            forall|k: int|
                0 <= k < len ==> renderer.pixels()[k] == (if k / wi < y {
                    sky_pixel(k % wi, k / wi, hi)
                } else {
                    buf0[k]
                }),
        decreases h - y,
    {
        let yy = y as u64;
        let hy = #[verifier::truncate] ((yy * 19349663) as u32);
        let rr: u32 = ((5 * (h - y)) / h) as u32;
        let gg: u32 = ((8 * (h - y)) / h) as u32;
        let bb: u32 = (20 + (30 * (h - y)) / h) as u32;
        let grad: u32 = 0xFF000000u32 | (rr << 16) | (gg << 8) | bb;
        let mut x: usize = 0;
        while x < w
            invariant
                renderer.wf(),
                renderer.width == old(renderer).width,
                renderer.height == old(renderer).height,
                w == renderer.width,
                h == renderer.height,
                wi == w as int,
                hi == h as int,
                len == renderer.pixels().len(),
                len == buf0.len(),
                y < h,
                x <= w,
                hy == (((y as u64) * 19349663) as u32),
                grad == sky_gradient(y as int, hi),
                forall|k: int|
                    0 <= k < len ==> renderer.pixels()[k] == (if k / wi < y || (k / wi == y && k
                        % wi < x) {
                        sky_pixel(k % wi, k / wi, hi)
                    } else {
                        buf0[k]
                    }),
            decreases w - x,
        {
            let hx = #[verifier::truncate] (((x as u64) * 73856093) as u32);
            let v: u32 = (hx ^ hy) & 0xFF;
            let color: u32 = if v < 2 {
                0xFF202020
            } else if v == 3 {
                0xFF606060
            } else if v == 4 {
                0xFFFFFFFF
            } else {
                grad
            };
            proof {
                crate::renderer::framebuffer::lemma_row_major(wi, hi, x as int, y as int);
                assert forall|k: int|
                    #![trigger k % wi]
                    0 <= k < len && k != (y as int) * wi + (x as int) implies (k % wi != x as int
                    || k / wi != y as int) by {
                    lemma_fundamental_div_mod(k, wi);
                    lemma_fundamental_div_mod((y as int) * wi + (x as int), wi);
                }
                assert(color == sky_pixel(x as int, y as int, hi));
            }
            let idx: usize = y * w + x;
            renderer.fb.pixels[idx] = color;
            x = x + 1;
        }
        proof {
            assert forall|k: int|
                #![trigger k % wi]
                0 <= k < len implies (k / wi < y + 1) == (k / wi < y || (k / wi
                == y && k % wi < w)) by {
                lemma_mod_bound(k, wi);
                lemma_div_pos_is_pos(k, wi);
            }
        }
        y = y + 1;
    }
    proof {
        assert forall|k: int|
            #![trigger k / wi]
            0 <= k < len implies k / wi < h by {
            lemma_fundamental_div_mod(k, wi);
            lemma_mod_bound(k, wi);
            assert(k / wi < hi) by (nonlinear_arith)
                requires
                    wi * (k / wi) + k % wi == k,
                    k % wi >= 0,
                    k < len,
                    len <= wi * hi,
                    wi > 0,
            ;
        }
    }
}

} // verus!
