//! One celestial body: a closed kind tag, a physical radius, a packed color,
//! and the circular-orbit state (radius, angular velocity, current phase)
//! relative to an optional parent body.

use vstd::prelude::*;
use crate::fixed::{fmul, clip};

verus! {

/// Bodies' physical and orbital radii stay within this bound (1024 world
/// units), so a chain of orbit offsets stays inside the world box.
pub const BODY_RAD_LIM_FP: i64 = 0x400_0000;

/// Angular velocities stay within this bound.
pub const BODY_SPEED_LIM_FP: i64 = 0x400_0000;

/// The phase accumulator saturates at this huge bound instead of
/// overflowing; below it the phase advance is exactly linear.
pub const ANGLE_LIM_FP: i64 = 0x100_0000_0000_0000;

/// Largest frame delta the phase update accepts: four seconds.
pub const BODY_MAX_DT_FP: i64 = 262144;

#[derive(Clone, Copy, PartialEq, Eq, Structural, Debug)]
pub enum BodyKind {
    Star,
    Planet,
    Moon,
}

#[derive(Clone, Copy, Debug)]
pub struct Body {
    /// Display name; projection and simulation never read it.
    pub name: &'static str,
    pub kind: BodyKind,
    /// Physical radius in world units, positive.
    pub radius: i64,
    /// Packed ARGB color.
    pub color: u32,
    /// Distance from the parent's resolved position; zero means co-located.
    pub orbit_radius: i64,
    /// Angular velocity in radians per second; the sign is the direction.
    pub orbit_speed: i64,
    /// Current orbital phase in radians.
    pub angle: i64,
    /// Index of the parent body in the owning list, or none for the root.
    pub parent: Option<usize>,
}

/// The phase after one update step: advanced linearly by `orbit_speed * dt`,
/// saturating only at a bound no simulation reaches.
pub open spec fn next_angle(b: Body, dt: int) -> int {
    clip(b.angle + fmul(b.orbit_speed as int, dt), -ANGLE_LIM_FP as int, ANGLE_LIM_FP as int)
}

impl Body {
    /// Radii positive and bounded, velocity bounded, phase within the
    /// saturation bound.
    pub open spec fn wf(self) -> bool {
        &&& 0 < self.radius <= BODY_RAD_LIM_FP
        &&& 0 <= self.orbit_radius <= BODY_RAD_LIM_FP
        &&& -BODY_SPEED_LIM_FP <= self.orbit_speed <= BODY_SPEED_LIM_FP
        &&& -ANGLE_LIM_FP <= self.angle <= ANGLE_LIM_FP
    }

    /// Advance the orbital phase by one frame: `angle += orbit_speed * dt`.
    pub fn update(&mut self, dt: i64)
        requires
            old(self).wf(),
            0 <= dt <= BODY_MAX_DT_FP,
        ensures
            final(self).wf(),
            final(self).angle == next_angle(*old(self), dt as int),
            *final(self) == (Body { angle: final(self).angle, ..*old(self) }),
    {
        proof {
            assert(-0x10_0000_0000_0000 <= self.orbit_speed as int * dt as int
                <= 0x10_0000_0000_0000) by (nonlinear_arith)
                requires
                    -0x400_0000 <= self.orbit_speed <= 0x400_0000,
                    0 <= dt <= 262144,
            ;
            crate::fixed::lemma_tdiv_bound(self.orbit_speed as int * dt as int,
                crate::fixed::FP_ONE as int, 0x10_0000_0000_0000);
        }
        let delta = crate::fixed::fp_mul(self.orbit_speed, dt);
        let sum = self.angle + delta;
        self.angle = if sum > ANGLE_LIM_FP {
            ANGLE_LIM_FP
        } else if sum < -ANGLE_LIM_FP {
            -ANGLE_LIM_FP
        } else {
            sum
        };
    }
}

/// The phase advance is linear: wherever the saturation bound is not hit,
/// the new phase is exactly the old phase plus `orbit_speed * dt`.
pub proof fn lemma_phase_linear(b: Body, dt: int)
    requires
        -ANGLE_LIM_FP <= b.angle + fmul(b.orbit_speed as int, dt) <= ANGLE_LIM_FP,
    ensures
        next_angle(b, dt) == b.angle + fmul(b.orbit_speed as int, dt),
{
}

} // verus!
