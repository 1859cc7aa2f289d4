//! The renderer: a framebuffer, the 2D rasterizer entry points, and the
//! pinhole projector from world space to screen space.

pub mod framebuffer;
pub mod draw2d;

use vstd::prelude::*;
use crate::fixed::{FP_ONE, fmul, fdiv, tdiv, sin_fx, cos_fx, clip, fp_mul, fp_div, sin_fp, cos_fp, lemma_tdiv_bound};
use crate::math::{Vec3, Vec2, vsub, dot_fx, cross_fx, norm_fx, bounded3};
use crate::camera::{Camera, forward_fx, WORLD_LIM_FP};
use crate::renderer::framebuffer::{FrameBuffer, MAX_DIM, put_spec};
use crate::renderer::draw2d::{disk_paint, circle_paint, line_paint, tri_paint, sphere_paint};
use crate::texture::Texture;

verus! {

/// The near-plane threshold: camera-space depths at or below one tenth of a
/// world unit are rejected rather than projected.
pub const NEAR_FP: i64 = 6554;

/// The camera's right axis: forward crossed with the world's up, normalized.
pub open spec fn right_of(c: Camera) -> Vec3 {
    norm_fx(cross_fx(forward_fx(c), Vec3 { x: 0, y: FP_ONE, z: 0 }))
}

/// The camera's up axis: right crossed with forward, normalized.
pub open spec fn up_of(c: Camera) -> Vec3 {
    norm_fx(cross_fx(right_of(c), forward_fx(c)))
}

/// Camera-space depth of a world point: its offset from the eye, measured
/// along the forward axis (positive in front of the camera).
pub open spec fn cam_depth(world: Vec3, c: Camera) -> int {
    dot_fx(vsub(world, c.position), forward_fx(c))
}

/// The projector: a world point maps to a screen pixel unless it lies at or
/// behind the near plane (or the field of view degenerates). The focal
/// length is `(h/2) / tan(fov_y/2)`; the screen Y axis grows downward; the
/// unclipped screen coordinates saturate at the `i32` range.
pub open spec fn project_spec(w: int, h: int, world: Vec3, c: Camera) -> Option<(i32, i32)> {
    let rel = vsub(world, c.position);
    let x_cam = dot_fx(rel, right_of(c));
    let y_cam = dot_fx(rel, up_of(c));
    let z_cam = cam_depth(world, c);
    let half = c.fov_y as int / 2;
    let sh = sin_fx(half);
    let ch = cos_fx(half);
    if z_cam <= NEAR_FP || sh <= 0 {
        None
    } else {
        let f = fdiv(fmul(h * FP_ONE / 2, ch), sh);
        let sx = w / 2 + tdiv(tdiv(x_cam * f, z_cam), FP_ONE as int);
        let sy = h / 2 - tdiv(tdiv(y_cam * f, z_cam), FP_ONE as int);
        Some(
            (
                clip(sx, -0x8000_0000, 0x7FFF_FFFF) as i32,
                clip(sy, -0x8000_0000, 0x7FFF_FFFF) as i32,
            ),
        )
    }
}

/// The projector is a pure function: one point and one camera admit exactly
/// one projection, so repeated projections agree.
pub proof fn lemma_project_pure(
    w: int,
    h: int,
    world: Vec3,
    c: Camera,
    r1: Option<(i32, i32)>,
    r2: Option<(i32, i32)>,
)
    requires
        r1 == project_spec(w, h, world, c),
        r2 == project_spec(w, h, world, c),
    ensures
        r1 == r2,
{
}

/// The near-plane rule: a depth at or below the threshold never projects,
/// and a depth beyond it always does (for a non-degenerate field of view).
pub proof fn lemma_near_plane(w: int, h: int, world: Vec3, c: Camera)
    ensures
        cam_depth(world, c) <= NEAR_FP ==> project_spec(w, h, world, c) is None,
        cam_depth(world, c) > NEAR_FP && sin_fx(c.fov_y as int / 2) > 0 ==> project_spec(
            w,
            h,
            world,
            c,
        ) is Some,
{
}

/// The flat 2D projection: world offset from the camera, zoomed, centered on
/// the screen, saturating at the `i32` range.
pub open spec fn screen_2d_spec(w: int, h: int, world: Vec2, camera_pos: Vec2, zoom: int) -> (
    int,
    int,
) {
    let sx = tdiv(fmul(world.x - camera_pos.x, zoom), FP_ONE as int) + w / 2;
    let sy = tdiv(fmul(world.y - camera_pos.y, zoom), FP_ONE as int) + h / 2;
    (clip(sx, -0x8000_0000, 0x7FFF_FFFF), clip(sy, -0x8000_0000, 0x7FFF_FFFF))
}

pub struct Renderer {
    pub width: usize,
    pub height: usize,
    pub fb: FrameBuffer,
}

impl Renderer {
    /// The framebuffer matches the advertised dimensions.
    pub open spec fn wf(self) -> bool {
        &&& self.fb.wf()
        &&& self.fb.width == self.width
        &&& self.fb.height == self.height
    }

    /// The pixel contents, row-major.
    pub open spec fn pixels(self) -> Seq<u32> {
        self.fb.pixels@
    }

    pub fn new(width: usize, height: usize) -> (r: Renderer)
        requires
            width <= MAX_DIM,
            height <= MAX_DIM,
        ensures
            r.wf(),
            r.width == width,
            r.height == height,
            forall|k: int| 0 <= k < r.pixels().len() ==> r.pixels()[k] == 0u32,
    {
        Renderer { width, height, fb: FrameBuffer::new(width, height) }
    }

    /// Overwrite every pixel with one color.
    pub fn clear(&mut self, color: u32)
        requires
            old(self).wf(),
        ensures
            final(self).wf(),
            final(self).width == old(self).width,
            final(self).height == old(self).height,
            final(self).pixels().len() == old(self).pixels().len(),
            forall|k: int|
                0 <= k < final(self).pixels().len() ==> final(self).pixels()[k] == color,
    {
        self.fb.clear(color);
    }

    /// Read access to the pixel buffer, for presentation.
    pub fn buffer(&self) -> (r: &[u32])
        ensures
            r@ == self.pixels(),
    {
        self.fb.pixels.as_slice()
    }

    /// Write one pixel; writes outside the buffer are silently dropped.
    pub fn put_pixel(&mut self, x: i32, y: i32, color: u32)
        requires
            old(self).wf(),
        ensures
            final(self).wf(),
            final(self).width == old(self).width,
            final(self).height == old(self).height,
            final(self).pixels() == put_spec(
                old(self).pixels(),
                old(self).width as int,
                old(self).height as int,
                x as int,
                y as int,
                color,
            ),
    {
        self.fb.put_pixel(x, y, color);
    }

    /// Fill a circle; see [`FrameBuffer::filled_circle`].
    pub fn draw_filled_circle(&mut self, center: (i32, i32), radius: i32, color: u32)
        requires
            old(self).wf(),
        ensures
            final(self).wf(),
            final(self).width == old(self).width,
            final(self).height == old(self).height,
            final(self).pixels() == disk_paint(
                old(self).pixels(),
                old(self).width as int,
                center.0 as int,
                center.1 as int,
                radius as int,
                color,
            ),
    {
        self.fb.filled_circle(center.0, center.1, radius, color);
    }

    /// Draw a circle outline; see [`FrameBuffer::circle`].
    pub fn draw_circle(&mut self, center: (i32, i32), radius: i32, color: u32)
        requires
            old(self).wf(),
        ensures
            final(self).wf(),
            final(self).width == old(self).width,
            final(self).height == old(self).height,
            final(self).pixels() == circle_paint(
                old(self).pixels(),
                old(self).width as int,
                center.0 as int,
                center.1 as int,
                radius as int,
                color,
            ),
    {
        self.fb.circle(center, radius, color);
    }

    /// Draw a line; see [`FrameBuffer::line`].
    pub fn draw_line(&mut self, p0: (i32, i32), p1: (i32, i32), color: u32)
        requires
            old(self).wf(),
        ensures
            final(self).wf(),
            final(self).width == old(self).width,
            final(self).height == old(self).height,
            final(self).pixels() == line_paint(
                old(self).pixels(),
                old(self).width as int,
                p0.0 as int,
                p0.1 as int,
                p1.0 as int,
                p1.1 as int,
                color,
            ),
    {
        self.fb.line(p0, p1, color);
    }

    /// Fill a triangle; see [`FrameBuffer::triangle`].
    pub fn draw_triangle(&mut self, p0: (i32, i32), p1: (i32, i32), p2: (i32, i32), color: u32)
        requires
            old(self).wf(),
        ensures
            final(self).wf(),
            final(self).width == old(self).width,
            final(self).height == old(self).height,
            final(self).pixels() == tri_paint(
                old(self).pixels(),
                old(self).width as int,
                p0.0 as int,
                p0.1 as int,
                p1.0 as int,
                p1.1 as int,
                p2.0 as int,
                p2.1 as int,
                color,
            ),
    {
        self.fb.triangle(p0, p1, p2, color);
    }

    /// Paint a textured disk; see [`FrameBuffer::textured_disk`]. The
    /// rotation is the body's orbital phase, giving a visible spin cue.
    pub fn draw_textured_sphere(&mut self, tex: &Texture, center: (i32, i32), radius: i32, rotation: i64)
        requires
            old(self).wf(),
            tex.wf(),
        ensures
            final(self).wf(),
            final(self).width == old(self).width,
            final(self).height == old(self).height,
            final(self).pixels() == sphere_paint(
                old(self).pixels(),
                old(self).width as int,
                *tex,
                center.0 as int,
                center.1 as int,
                radius as int,
                rotation as int,
            ),
    {
        self.fb.textured_disk(tex, center.0, center.1, radius, rotation);
    }

    /// Project a world point to screen coordinates through the camera, or
    /// report it as not visible when it lies at or behind the near plane.
    #[verifier::rlimit(100)]
    #[verifier::spinoff_prover]
    pub fn project_point(&self, world: Vec3, camera: &Camera) -> (r: Option<(i32, i32)>)
        requires
            self.wf(),
            bounded3(world, 0x1_0000_0000),
            camera.wf(),
        ensures
            r == project_spec(self.width as int, self.height as int, world, *camera),
    {
        let rel = world.sub(camera.position);
        let fwd = camera.forward();
        let right = fwd.cross(Vec3::up()).normalized();
        let upv = right.cross(fwd).normalized();
        let x_cam = rel.dot(right);
        let y_cam = rel.dot(upv);
        let z_cam = rel.dot(fwd);
        let half = camera.fov_y / 2;
        let sh = sin_fp(half);
        let ch = cos_fp(half);
        if z_cam <= NEAR_FP || sh <= 0 {
            return None;
        }
        proof {
            assert(0 <= (self.height as int) * (FP_ONE as int) / 2 <= 0x2000_0000)
                by (nonlinear_arith)
                requires
                    0 <= self.height <= 16384,
                    FP_ONE == 65536,
            ;
        }
        let half_h: i64 = (self.height as i64) * FP_ONE / 2;
        proof {
            assert(-0x2000_0000_0000 <= half_h as int * ch as int <= 0x2000_0000_0000)
                by (nonlinear_arith)
                requires
                    0 <= half_h <= 0x2000_0000,
                    -0x1_0000 <= ch <= 0x1_0000,
            ;
            lemma_tdiv_bound(half_h as int * ch as int, FP_ONE as int, 0x2000_0000_0000);
        }
        let hc = fp_mul(half_h, ch);
        proof {
            lemma_tdiv_bound(hc as int * FP_ONE as int, sh as int, 0x2000_0000_0000);
            vstd::arithmetic::div_mod::lemma_div_is_ordered_by_denominator(0x2000_0000_0000, 1,
                sh as int);
        }
        let f = fp_div(hc, sh);
        proof {
            assert(-0x3000_0000_0000_0000_0000_0000 <= x_cam as int * f as int
                <= 0x3000_0000_0000_0000_0000_0000) by (nonlinear_arith)
                requires
                    -0x18_0000_0000 <= x_cam <= 0x18_0000_0000,
                    -0x2000_0000_0000 <= f <= 0x2000_0000_0000,
            ;
            assert(-0x3000_0000_0000_0000_0000_0000 <= y_cam as int * f as int
                <= 0x3000_0000_0000_0000_0000_0000) by (nonlinear_arith)
                requires
                    -0x18_0000_0000 <= y_cam <= 0x18_0000_0000,
                    -0x2000_0000_0000 <= f <= 0x2000_0000_0000,
            ;
        }
        let sxw: i128 = (self.width as i128) / 2 + ((x_cam as i128) * (f as i128)) / (
        z_cam as i128) / (FP_ONE as i128);
        let syw: i128 = (self.height as i128) / 2 - ((y_cam as i128) * (f as i128)) / (
        z_cam as i128) / (FP_ONE as i128);
        Some((clamp_i32(sxw), clamp_i32(syw)))
    }

    /// The flat 2D projection path: offset from the camera, zoomed, centered.
    pub fn world_to_screen_2d(&self, world: Vec2, camera_pos: Vec2, zoom: i64) -> (r: (i32, i32))
        requires
            self.wf(),
            -0x1_0000_0000 <= world.x - camera_pos.x <= 0x1_0000_0000,
            -0x1_0000_0000 <= world.y - camera_pos.y <= 0x1_0000_0000,
            -0x1_0000_0000 <= zoom <= 0x1_0000_0000,
        ensures
            (r.0 as int, r.1 as int) == screen_2d_spec(
                self.width as int,
                self.height as int,
                world,
                camera_pos,
                zoom as int,
            ),
    {
        proof {
            assert(-0x1_0000_0000_0000_0000 <= (world.x - camera_pos.x) * zoom
                <= 0x1_0000_0000_0000_0000) by (nonlinear_arith)
                requires
                    -0x1_0000_0000 <= world.x - camera_pos.x <= 0x1_0000_0000,
                    -0x1_0000_0000 <= zoom <= 0x1_0000_0000,
            ;
            assert(-0x1_0000_0000_0000_0000 <= (world.y - camera_pos.y) * zoom
                <= 0x1_0000_0000_0000_0000) by (nonlinear_arith)
                requires
                    -0x1_0000_0000 <= world.y - camera_pos.y <= 0x1_0000_0000,
                    -0x1_0000_0000 <= zoom <= 0x1_0000_0000,
            ;
        }
        let dx: i128 = ((world.x - camera_pos.x) as i128) * (zoom as i128);
        let dy: i128 = ((world.y - camera_pos.y) as i128) * (zoom as i128);
        let sx: i128 = dx / (FP_ONE as i128) / (FP_ONE as i128) + (self.width as i128) / 2;
        let sy: i128 = dy / (FP_ONE as i128) / (FP_ONE as i128) + (self.height as i128) / 2;
        (clamp_i32(sx), clamp_i32(sy))
    }
}

/// Saturate a wide value into the `i32` range.
fn clamp_i32(v: i128) -> (r: i32)
    ensures
        r as int == clip(v as int, -0x8000_0000, 0x7FFF_FFFF),
{
    if v < -0x8000_0000 {
        -0x8000_0000
    } else if v > 0x7FFF_FFFF {
        0x7FFF_FFFF
    } else {
        v as i32
    }
}

} // verus!
