//! The viewpoint-transition helper: an instant jump is a plain position
//! assignment by the caller; an animated warp interpolates the camera's
//! position from a start to a target over a fixed duration.

use vstd::prelude::*;
use crate::fixed::{FP_ONE, fmul, fdiv, fp_mul, fp_div, lemma_tdiv_bound};
use crate::math::{Vec3, bounded3};
use crate::camera::{Camera, WORLD_LIM_FP, MAX_DT_FP};

verus! {

pub struct WarpState {
    pub active: bool,
    pub start: Vec3,
    pub target: Vec3,
    pub duration: i64,
    pub elapsed: i64,
}

/// A valid warp: endpoints inside the world box, a positive duration, and
/// elapsed time within it.
pub open spec fn warp_wf(w: WarpState) -> bool {
    &&& bounded3(w.start, WORLD_LIM_FP as int)
    &&& bounded3(w.target, WORLD_LIM_FP as int)
    &&& 0 < w.duration <= 0x4000_0000
    &&& 0 <= w.elapsed <= w.duration
}

/// Elapsed time after one step, held at the duration.
pub open spec fn elapsed_after(w: WarpState, dt: int) -> int {
    if w.elapsed + dt < w.duration {
        w.elapsed + dt
    } else {
        w.duration as int
    }
}

/// The interpolated point between start and target at phase `t` (fixed-point
/// zero to one): each coordinate moves by `t` of its total difference.
pub open spec fn lerp3(a: Vec3, b: Vec3, t: int) -> Vec3 {
    Vec3 {
        x: (a.x + fmul(b.x - a.x, t)) as i64,
        y: (a.y + fmul(b.y - a.y, t)) as i64,
        z: (a.z + fmul(b.z - a.z, t)) as i64,
    }
}

impl WarpState {
    /// An idle warp.
    pub fn new() -> (r: WarpState)
        ensures
            warp_wf(r),
            !r.active,
    {
        WarpState {
            active: false,
            start: Vec3 { x: 0, y: 0, z: 0 },
            target: Vec3 { x: 0, y: 0, z: 0 },
            duration: FP_ONE,
            elapsed: 0,
        }
    }

    /// Begin an animated transition from `start` to `target` over
    /// `duration` seconds.
    pub fn start_animated(&mut self, start: Vec3, target: Vec3, duration: i64)
        requires
            bounded3(start, WORLD_LIM_FP as int),
            bounded3(target, WORLD_LIM_FP as int),
            0 < duration <= 0x4000_0000,
        ensures
            warp_wf(*final(self)),
            final(self).active,
            final(self).start == start,
            final(self).target == target,
            final(self).duration == duration,
            final(self).elapsed == 0,
    {
        self.active = true;
        self.start = start;
        self.target = target;
        self.duration = duration;
        self.elapsed = 0;
    }

    /// Advance the transition and move the camera onto the interpolated
    /// point; the warp deactivates when the duration is reached.
    pub fn update(&mut self, dt: i64, camera: &mut Camera)
        requires
            warp_wf(*old(self)),
            old(camera).wf(),
            0 <= dt <= MAX_DT_FP,
        ensures
            warp_wf(*final(self)),
            final(camera).wf(),
            final(self).elapsed == elapsed_after(*old(self), dt as int),
            final(self).start == old(self).start,
            final(self).target == old(self).target,
            final(self).duration == old(self).duration,
            final(camera).position == lerp3(
                old(self).start,
                old(self).target,
                fdiv(final(self).elapsed as int, old(self).duration as int),
            ),
            final(self).active == (final(self).elapsed < final(self).duration),
            final(camera).yaw == old(camera).yaw,
            final(camera).pitch == old(camera).pitch,
            final(camera).fov_y == old(camera).fov_y,
    {
        let sum = self.elapsed + dt;
        self.elapsed = if sum < self.duration {
            sum
        } else {
            self.duration
        };
        let t = fp_div(self.elapsed, self.duration);
        proof {
            lemma_tdiv_bound(self.elapsed as int * FP_ONE as int, self.duration as int,
                self.duration as int * FP_ONE as int);
            vstd::arithmetic::div_mod::lemma_div_multiples_vanish(FP_ONE as int,
                self.duration as int);
            assert(self.duration as int * FP_ONE as int == FP_ONE as int * self.duration as int)
                by (nonlinear_arith);
            assert(0 <= self.elapsed as int * FP_ONE as int) by (nonlinear_arith)
                requires
                    self.elapsed >= 0,
            ;
            lemma_lerp_comp(self.start.x as int, self.target.x as int, t as int);
            lemma_lerp_comp(self.start.y as int, self.target.y as int, t as int);
            lemma_lerp_comp(self.start.z as int, self.target.z as int, t as int);
        }
        camera.position = Vec3 {
            x: self.start.x + fp_mul(self.target.x - self.start.x, t),
            y: self.start.y + fp_mul(self.target.y - self.start.y, t),
            z: self.start.z + fp_mul(self.target.z - self.start.z, t),
        };
        self.active = self.elapsed < self.duration;
    }
}

/// One interpolated coordinate stays between its endpoints (and so inside
/// the world box).
proof fn lemma_lerp_comp(a: int, b: int, t: int)
    requires
        -WORLD_LIM_FP <= a <= WORLD_LIM_FP,
        -WORLD_LIM_FP <= b <= WORLD_LIM_FP,
        0 <= t <= FP_ONE,
    ensures
        -0x2_0000_0000_0000 <= (b - a) * t <= 0x2_0000_0000_0000,
        -WORLD_LIM_FP <= a + fmul(b - a, t) <= WORLD_LIM_FP,
{
    assert(-0x2_0000_0000_0000 <= (b - a) * t <= 0x2_0000_0000_0000) by (nonlinear_arith)
        requires
            -0x1_0000_0000 <= b - a <= 0x1_0000_0000,
            0 <= t <= 0x1_0000,
    ;
    if b - a >= 0 {
        assert((b - a) * t <= (b - a) * FP_ONE && 0 <= (b - a) * t) by (nonlinear_arith)
            requires
                0 <= b - a,
                0 <= t <= FP_ONE,
        ;
        lemma_tdiv_bound((b - a) * t, FP_ONE as int, (b - a) * FP_ONE);
        vstd::arithmetic::div_mod::lemma_div_multiples_vanish(b - a, FP_ONE as int);
        assert((b - a) * FP_ONE == FP_ONE as int * (b - a)) by (nonlinear_arith);
    } else {
        assert((a - b) * t <= (a - b) * FP_ONE && 0 <= (a - b) * t && (b - a) * t == -((a - b)
            * t)) by (nonlinear_arith)
            requires
                0 <= a - b,
                0 <= t <= FP_ONE,
        ;
        lemma_tdiv_bound((b - a) * t, FP_ONE as int, (a - b) * FP_ONE);
        vstd::arithmetic::div_mod::lemma_div_multiples_vanish(a - b, FP_ONE as int);
        assert((a - b) * FP_ONE == FP_ONE as int * (a - b)) by (nonlinear_arith);
    }
}

} // verus!
