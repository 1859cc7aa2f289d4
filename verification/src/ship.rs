//! The player's ship: a point held a fixed distance in front of the camera,
//! drawn as a small triangle marker (hull, two fins, engine flame).

use vstd::prelude::*;
use crate::fixed::clip;
use crate::math::{Vec3, vadd, vscale, bounded3};
use crate::camera::{Camera, forward_fx, WORLD_LIM_FP};
use crate::renderer::{Renderer, project_spec};
use crate::renderer::draw2d::tri_paint;

verus! {

/// How far in front of the camera the ship rides, in fixed-point units.
pub const SHIP_LEAD_FP: i64 = 983040;

pub struct Ship {
    pub position: Vec3,
}

/// Where the ship rides: the camera's position plus fifteen units along its
/// forward vector.
pub open spec fn ship_position_after(c: Camera) -> Vec3 {
    vadd(c.position, vscale(forward_fx(c), SHIP_LEAD_FP as int))
}

/// A screen coordinate offset saturating at the `i32` range.
pub open spec fn offp(base: int, d: int) -> int {
    clip(base + d, -0x8000_0000, 0x7FFF_FFFF)
}

/// The ship marker over a buffer: nothing when the ship is not visible, else
/// a white hull triangle, two grey fins and an orange flame, all relative to
/// the projected center.
pub open spec fn ship_marker(buf: Seq<u32>, w: int, h: int, pos: Vec3, cam: Camera) -> Seq<u32> {
    match project_spec(w, h, pos, cam) {
        Option::None => buf,
        Option::Some(pt) => {
            let cx = pt.0 as int;
            let cy = pt.1 as int;
            let b1 = tri_paint(buf, w, cx, offp(cy, -12), offp(cx, -6), offp(cy, 6), offp(cx, 6),
                offp(cy, 6), 0xFFFFFFFFu32);
            let b2 = tri_paint(b1, w, offp(cx, -6), offp(cy, 3), offp(cx, -12), offp(cy, 12),
                offp(cx, -6), offp(cy, 6), 0xFFAAAAAAu32);
            let b3 = tri_paint(b2, w, offp(cx, 6), offp(cy, 3), offp(cx, 12), offp(cy, 12), offp(
                cx, 6), offp(cy, 6), 0xFFAAAAAAu32);
            tri_paint(b3, w, cx, offp(cy, 6), offp(cx, -3), offp(cy, 16), offp(cx, 3), offp(cy, 16),
                0xFFFF9933u32)
        },
    }
}

impl Ship {
    /// A ship at the world origin.
    pub fn new() -> (r: Ship)
        ensures
            r.position == (Vec3 { x: 0, y: 0, z: 0 }),
    {
        Ship { position: Vec3 { x: 0, y: 0, z: 0 } }
    }

    /// Keep the ship a fixed lead in front of the camera.
    pub fn update(&mut self, _dt: i64, camera: &Camera)
        requires
            camera.wf(),
        ensures
            final(self).position == ship_position_after(*camera),
            bounded3(final(self).position, 0x8100_0000),
    {
        let fwd = camera.forward();
        let lead = fwd.scale(SHIP_LEAD_FP);
        self.position = camera.position.add(lead);
        proof {
            crate::fixed::lemma_tdiv_bound(forward_fx(*camera).x as int * SHIP_LEAD_FP as int,
                crate::fixed::FP_ONE as int, 0x100_0000_0000);
        }
    }

    /// Draw the ship marker at its projected position.
    pub fn render(&self, renderer: &mut Renderer, camera: &Camera)
        requires
            old(renderer).wf(),
            camera.wf(),
            bounded3(self.position, 0x1_0000_0000),
        ensures
            final(renderer).wf(),
            final(renderer).width == old(renderer).width,
            final(renderer).height == old(renderer).height,
            final(renderer).pixels() == ship_marker(
                old(renderer).pixels(),
                old(renderer).width as int,
                old(renderer).height as int,
                self.position,
                *camera,
            ),
    {
        match renderer.project_point(self.position, camera) {
            Option::None => {},
            Option::Some(pt) => {
                let cx = pt.0;
                let cy = pt.1;
                let nose = (cx, offc(cy, -12));
                let left_bottom = (offc(cx, -6), offc(cy, 6));
                let right_bottom = (offc(cx, 6), offc(cy, 6));
                renderer.draw_triangle(nose, left_bottom, right_bottom, 0xFFFFFFFF);
                let fin_left_top = (offc(cx, -6), offc(cy, 3));
                let fin_left_bottom = (offc(cx, -12), offc(cy, 12));
                renderer.draw_triangle(fin_left_top, fin_left_bottom, left_bottom, 0xFFAAAAAA);
                let fin_right_top = (offc(cx, 6), offc(cy, 3));
                let fin_right_bottom = (offc(cx, 12), offc(cy, 12));
                renderer.draw_triangle(fin_right_top, fin_right_bottom, right_bottom, 0xFFAAAAAA);
                let flame_top = (cx, offc(cy, 6));
                let flame_left = (offc(cx, -3), offc(cy, 16));
                let flame_right = (offc(cx, 3), offc(cy, 16));
                renderer.draw_triangle(flame_top, flame_left, flame_right, 0xFFFF9933);
            },
        }
    }
}

/// Offset a screen coordinate, saturating at the `i32` range.
fn offc(base: i32, d: i32) -> (r: i32)
    ensures
        r as int == offp(base as int, d as int),
{
    let v: i64 = (base as i64) + (d as i64);
    if v < -0x8000_0000 {
        -0x8000_0000
    } else if v > 0x7FFF_FFFF {
        0x7FFF_FFFF
    } else {
        v as i32
    }
}

} // verus!
