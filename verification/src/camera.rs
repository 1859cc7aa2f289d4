//! The fly camera: an eye position, a yaw/pitch orientation (no roll) and a
//! vertical field of view, with the per-frame controller that integrates the
//! input intent into orientation and position.

use vstd::prelude::*;
use crate::fixed::{
    FP_ONE, TWO_PI_FP, PI_FP, fmul, sin_fx, cos_fx, wrap2pi, sin_fp, cos_fp, fp_mul,
    lemma_tdiv_bound, clip,
};
use crate::math::{Vec3, bounded3, norm_fx, cross_fx, vadd, vscale, len_fx};
use crate::input::InputState;

verus! {

/// Pitch is clamped to 1.3 radians either way, preventing gimbal flip.
pub const MAX_PITCH_FP: i64 = 85197;

/// Half the world's extent: camera and body coordinates stay inside this box.
pub const WORLD_LIM_FP: i64 = 0x8000_0000;

/// Movement speed of the fly camera, world units per second.
pub const MOVE_SPEED_FP: i64 = 3276800;

/// Look speed of the fly camera, radians per second.
pub const ROT_SPEED_FP: i64 = 98304;

/// Largest frame delta the controller accepts: four seconds.
pub const MAX_DT_FP: i64 = 262144;

pub struct Camera {
    pub position: Vec3,
    pub yaw: i64,
    pub pitch: i64,
    pub fov_y: i64,
}

/// The camera's forward direction: a unit vector from yaw and pitch alone.
pub open spec fn forward_fx(c: Camera) -> Vec3 {
    let cp = cos_fx(c.pitch as int);
    let sp = sin_fx(c.pitch as int);
    let cy = cos_fx(c.yaw as int);
    let sy = sin_fx(c.yaw as int);
    norm_fx(
        Vec3 {
            x: fmul(sy, cp) as i64,
            y: sp as i64,
            z: (-fmul(cy, cp)) as i64,
        },
    )
}

/// Yaw after one controller step: turned by the look flags, wrapped into one
/// revolution (the wrap does not change any trigonometric value).
pub open spec fn yaw_after(c: Camera, dt: int, input: InputState) -> int {
    let step = fmul(ROT_SPEED_FP as int, dt);
    let turned = if input.look_left {
        c.yaw + step
    } else {
        c.yaw as int
    };
    let turned2 = if input.look_right {
        turned - step
    } else {
        turned
    };
    wrap2pi(turned2)
}

/// Pitch after one controller step: tilted by the look flags, then clamped.
pub open spec fn pitch_after(c: Camera, dt: int, input: InputState) -> int {
    let step = fmul(ROT_SPEED_FP as int, dt);
    let tilted = if input.look_up {
        c.pitch + step
    } else {
        c.pitch as int
    };
    let tilted2 = if input.look_down {
        tilted - step
    } else {
        tilted
    };
    clip(tilted2, -MAX_PITCH_FP as int, MAX_PITCH_FP as int)
}

/// The raw movement intent: the sum of the selected axes, before
/// normalization.
pub open spec fn velocity_of(c: Camera, input: InputState) -> Vec3 {
    let fwd = forward_fx(c);
    let right = norm_fx(cross_fx(fwd, Vec3 { x: 0, y: FP_ONE, z: 0 }));
    let v0 = Vec3 { x: 0, y: 0, z: 0 };
    let v1 = if input.move_forward {
        vadd(v0, fwd)
    } else {
        v0
    };
    let v2 = if input.move_back {
        Vec3 { x: (v1.x - fwd.x) as i64, y: (v1.y - fwd.y) as i64, z: (v1.z - fwd.z) as i64 }
    } else {
        v1
    };
    let v3 = if input.move_right {
        vadd(v2, right)
    } else {
        v2
    };
    let v4 = if input.move_left {
        Vec3 { x: (v3.x - right.x) as i64, y: (v3.y - right.y) as i64, z: (v3.z - right.z) as i64 }
    } else {
        v3
    };
    let v5 = if input.move_up {
        Vec3 { x: v4.x, y: (v4.y + FP_ONE) as i64, z: v4.z }
    } else {
        v4
    };
    if input.move_down {
        Vec3 { x: v5.x, y: (v5.y - FP_ONE) as i64, z: v5.z }
    } else {
        v5
    }
}

/// The camera with its angles advanced but its position untouched.
pub open spec fn turned(c: Camera, dt: int, input: InputState) -> Camera {
    Camera {
        yaw: yaw_after(c, dt, input) as i64,
        pitch: pitch_after(c, dt, input) as i64,
        ..c
    }
}

/// Where a camera moves in one step: along its normalized movement intent by
/// speed times delta, each coordinate clamped into the world box.
pub open spec fn move_position(c: Camera, dt: int, input: InputState) -> Vec3 {
    let vel = velocity_of(c, input);
    if len_fx(vel) > 0 {
        let step = vscale(norm_fx(vel), fmul(MOVE_SPEED_FP as int, dt));
        Vec3 {
            x: clip(c.position.x + step.x, -WORLD_LIM_FP as int, WORLD_LIM_FP as int) as i64,
            y: clip(c.position.y + step.y, -WORLD_LIM_FP as int, WORLD_LIM_FP as int) as i64,
            z: clip(c.position.z + step.z, -WORLD_LIM_FP as int, WORLD_LIM_FP as int) as i64,
        }
    } else {
        c.position
    }
}

/// Position after one controller step: the camera turns first, then moves.
pub open spec fn position_after(c: Camera, dt: int, input: InputState) -> Vec3 {
    move_position(turned(c, dt, input), dt, input)
}

impl Camera {
    /// A valid camera: position inside the world box, yaw one revolution,
    /// pitch clamped, field of view inside (0, pi).
    pub open spec fn wf(self) -> bool {
        &&& bounded3(self.position, WORLD_LIM_FP as int)
        &&& 0 <= self.yaw < TWO_PI_FP
        &&& -MAX_PITCH_FP <= self.pitch <= MAX_PITCH_FP
        &&& 0 < self.fov_y < PI_FP
    }

    /// The demo viewpoint: thirty units up, eighty units back, tilted a bit
    /// downward, with a sixty-degree vertical field of view.
    pub fn new() -> (r: Camera)
        ensures
            r.wf(),
            r.position == (Vec3 { x: 0, y: 1966080, z: 5242880 }),
            r.yaw == 0,
            r.pitch == -19661,
            r.fov_y == 68629,
    {
        Camera {
            position: Vec3 { x: 0, y: 1966080, z: 5242880 },
            yaw: 0,
            pitch: -19661,
            fov_y: 68629,
        }
    }

    /// The forward unit vector, a pure function of yaw and pitch.
    pub fn forward(&self) -> (r: Vec3)
        ensures
            r == forward_fx(*self),
            bounded3(r, FP_ONE as int),
    {
        let cp = cos_fp(self.pitch);
        let sp = sin_fp(self.pitch);
        let cy = cos_fp(self.yaw);
        let sy = sin_fp(self.yaw);
        proof {
            lemma_trig_prod(sy as int, cp as int);
            lemma_trig_prod(cy as int, cp as int);
        }
        let v = Vec3 { x: fp_mul(sy, cp), y: sp, z: -fp_mul(cy, cp) };
        v.normalized()
    }

    /// One controller step: turn by the look flags, clamp the pitch, and move
    /// along the normalized movement intent by speed times delta.
    pub fn update(&mut self, dt: i64, input: &InputState)
        requires
            old(self).wf(),
            0 <= dt <= MAX_DT_FP,
        ensures
            final(self).wf(),
            final(self).yaw == yaw_after(*old(self), dt as int, *input),
            final(self).pitch == pitch_after(*old(self), dt as int, *input),
            final(self).position == position_after(*old(self), dt as int, *input),
            final(self).fov_y == old(self).fov_y,
    {
        proof {
            lemma_tdiv_bound(ROT_SPEED_FP as int * dt as int, FP_ONE as int, 0x6_0000_0000_0000);
        }
        let step = fp_mul(ROT_SPEED_FP, dt);
        if input.look_left {
            self.yaw = self.yaw + step;
        }
        if input.look_right {
            self.yaw = self.yaw - step;
        }
        self.yaw = crate::fixed::wrap_angle(self.yaw);
        if input.look_up {
            self.pitch = self.pitch + step;
        }
        if input.look_down {
            self.pitch = self.pitch - step;
        }
        if self.pitch > MAX_PITCH_FP {
            self.pitch = MAX_PITCH_FP;
        }
        if self.pitch < -MAX_PITCH_FP {
            self.pitch = -MAX_PITCH_FP;
        }
        proof {
            assert(*self == turned(*old(self), dt as int, *input));
        }
        self.translate(dt, input);
    }

    /// The movement half of the controller step.
    fn translate(&mut self, dt: i64, input: &InputState)
        requires
            old(self).wf(),
            0 <= dt <= MAX_DT_FP,
        ensures
            final(self).wf(),
            final(self).position == move_position(*old(self), dt as int, *input),
            final(self).yaw == old(self).yaw,
            final(self).pitch == old(self).pitch,
            final(self).fov_y == old(self).fov_y,
    {
        let fwd = self.forward();
        let right = fwd.cross(Vec3::up()).normalized();
        let mut vx: i64 = 0;
        let mut vy: i64 = 0;
        let mut vz: i64 = 0;
        if input.move_forward {
            vx = vx + fwd.x;
            vy = vy + fwd.y;
            vz = vz + fwd.z;
        }
        if input.move_back {
            vx = vx - fwd.x;
            vy = vy - fwd.y;
            vz = vz - fwd.z;
        }
        if input.move_right {
            vx = vx + right.x;
            vy = vy + right.y;
            vz = vz + right.z;
        }
        if input.move_left {
            vx = vx - right.x;
            vy = vy - right.y;
            vz = vz - right.z;
        }
        if input.move_up {
            vy = vy + FP_ONE;
        }
        if input.move_down {
            vy = vy - FP_ONE;
        }
        let vel = Vec3 { x: vx, y: vy, z: vz };
        proof {
            assert(vel == velocity_of(*self, *input));
        }
        if vel.length() > 0 {
            proof {
                lemma_tdiv_bound(MOVE_SPEED_FP as int * dt as int, FP_ONE as int,
                    0xC4_0000_0000_0000);
            }
            let speed = fp_mul(MOVE_SPEED_FP, dt);
            let delta = vel.normalized().scale(speed);
            let px = self.position.x + delta.x;
            let py = self.position.y + delta.y;
            let pz = self.position.z + delta.z;
            self.position = Vec3 {
                x: clamp_world(px),
                y: clamp_world(py),
                z: clamp_world(pz),
            };
        }
    }
}

/// Clamp one coordinate into the world box.
fn clamp_world(v: i64) -> (r: i64)
    ensures
        r == clip(v as int, -WORLD_LIM_FP as int, WORLD_LIM_FP as int),
{
    if v < -WORLD_LIM_FP {
        -WORLD_LIM_FP
    } else if v > WORLD_LIM_FP {
        WORLD_LIM_FP
    } else {
        v
    }
}

/// Two trig-sized factors multiply safely and their fixed-point product stays
/// trig-sized.
proof fn lemma_trig_prod(a: int, b: int)
    requires
        -FP_ONE <= a <= FP_ONE,
        -FP_ONE <= b <= FP_ONE,
    ensures
        -0x1_0000_0000 <= a * b <= 0x1_0000_0000,
        -FP_ONE <= fmul(a, b) <= FP_ONE,
{
    assert(-0x1_0000_0000 <= a * b <= 0x1_0000_0000) by (nonlinear_arith)
        requires
            -0x1_0000 <= a <= 0x1_0000,
            -0x1_0000 <= b <= 0x1_0000,
    ;
    lemma_tdiv_bound(a * b, FP_ONE as int, 0x1_0000_0000);
    assert(0x1_0000_0000int / 0x1_0000 == 0x1_0000);
}

} // verus!
