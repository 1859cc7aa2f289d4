//! The solar system: an ordered, index-stable list of bodies. World
//! positions are resolved by walking each body's parent chain; the update
//! step advances every orbital phase; rendering draws orbit rings and body
//! discs through the projector.

use vstd::prelude::*;
use crate::fixed::{FP_ONE, TWO_PI_FP, fmul, sin_fx, cos_fx, clip, fp_mul, lemma_tdiv_bound, lemma_trig_bounds};
use crate::math::{Vec3, vadd, bounded3, sqrt_floor, lemma_sqrt_floor_unique};
use crate::fixed::isqrt;
use crate::camera::{Camera, WORLD_LIM_FP};
use crate::renderer::{Renderer, project_spec};
use crate::renderer::draw2d::{disk_paint, line_paint};
use crate::world::body::{Body, BodyKind, next_angle, BODY_RAD_LIM_FP, BODY_MAX_DT_FP};

verus! {

/// At most this many bodies, so chained orbit offsets stay inside the world
/// box.
pub const MAX_BODIES: usize = 32;

/// Color of planet orbit rings.
pub const ORBIT_COLOR_PLANET: u32 = 0xFF20254F;

/// Color of moon orbit rings.
pub const ORBIT_COLOR_MOON: u32 = 0xFF303B7A;

/// A valid body list: bounded length, well-formed bodies, and every parent
/// link pointing at a strictly earlier index, which makes the graph a forest
/// and the position recursion well-founded.
pub open spec fn bodies_wf(bodies: Seq<Body>) -> bool {
    &&& bodies.len() <= MAX_BODIES
    &&& forall|i: int|
        0 <= i < bodies.len() ==> (#[trigger] bodies[i]).wf() && (bodies[i].parent is Some
            ==> bodies[i].parent.unwrap() < i)
}

/// The circular offset of a body from its parent: radius times the phase's
/// cosine and sine, in the horizontal plane.
pub open spec fn orbit_offset(b: Body) -> Vec3 {
    Vec3 {
        x: fmul(b.orbit_radius as int, cos_fx(b.angle as int)) as i64,
        y: 0,
        z: fmul(b.orbit_radius as int, sin_fx(b.angle as int)) as i64,
    }
}

/// A body's resolved world position. A root star sits at the origin; a root
/// planet or moon orbits the origin; a child with zero orbit radius sits on
/// its parent; any other child adds its circular offset to its parent's
/// resolved position. (A parent index out of order resolves to the origin;
/// well-formed lists exclude it.)
pub open spec fn position_spec(bodies: Seq<Body>, i: int) -> Vec3
    decreases i,
{
    let b = bodies[i];
    match b.parent {
        Option::None => match b.kind {
            BodyKind::Star => Vec3 { x: 0, y: 0, z: 0 },
            _ => orbit_offset(b),
        },
        Option::Some(p) => if 0 <= p < i {
            let pp = position_spec(bodies, p as int);
            if b.orbit_radius == 0 {
                pp
            } else {
                vadd(pp, orbit_offset(b))
            }
        } else {
            Vec3 { x: 0, y: 0, z: 0 }
        },
    }
}

/// A co-located child (zero orbit radius, with a parent) resolves to exactly
/// its parent's position, at every simulated time.
pub proof fn lemma_zero_orbit_tracks_parent(bodies: Seq<Body>, i: int)
    requires
        bodies_wf(bodies),
        0 <= i < bodies.len(),
        bodies[i].parent is Some,
        bodies[i].orbit_radius == 0,
    ensures
        position_spec(bodies, i) == position_spec(bodies, bodies[i].parent.unwrap() as int),
{
}

/// A child with a positive orbit radius resolves to its parent's position
/// plus its own circular offset.
pub proof fn lemma_child_offset(bodies: Seq<Body>, i: int)
    requires
        bodies_wf(bodies),
        0 <= i < bodies.len(),
        bodies[i].parent is Some,
        bodies[i].orbit_radius != 0,
    ensures
        position_spec(bodies, i) == vadd(
            position_spec(bodies, bodies[i].parent.unwrap() as int),
            orbit_offset(bodies[i]),
        ),
{
}

/// An orbit offset never exceeds the orbital radius bound per coordinate.
pub proof fn lemma_orbit_offset_bounded(b: Body)
    requires
        b.wf(),
    ensures
        bounded3(orbit_offset(b), BODY_RAD_LIM_FP as int),
{
    lemma_trig_bounds(b.angle as int);
    assert(-(0x400_0000 * 0x1_0000) <= b.orbit_radius as int * cos_fx(b.angle as int) <= 0x400_0000
        * 0x1_0000) by (nonlinear_arith)
        requires
            0 <= b.orbit_radius <= 0x400_0000,
            -0x1_0000 <= cos_fx(b.angle as int) <= 0x1_0000,
    ;
    assert(-(0x400_0000 * 0x1_0000) <= b.orbit_radius as int * sin_fx(b.angle as int) <= 0x400_0000
        * 0x1_0000) by (nonlinear_arith)
        requires
            0 <= b.orbit_radius <= 0x400_0000,
            -0x1_0000 <= sin_fx(b.angle as int) <= 0x1_0000,
    ;
    lemma_tdiv_bound(b.orbit_radius as int * cos_fx(b.angle as int), FP_ONE as int, 0x400_0000int
        * 0x1_0000);
    lemma_tdiv_bound(b.orbit_radius as int * sin_fx(b.angle as int), FP_ONE as int, 0x400_0000int
        * 0x1_0000);
}

/// Resolved positions stay within the world box: each parent step adds at
/// most one bounded offset, and the chain is no longer than the list.
pub proof fn lemma_position_bounded(bodies: Seq<Body>, i: int)
    requires
        bodies_wf(bodies),
        0 <= i < bodies.len(),
    ensures
        bounded3(position_spec(bodies, i), (i + 1) * BODY_RAD_LIM_FP as int),
        bounded3(position_spec(bodies, i), WORLD_LIM_FP as int),
    decreases i,
{
    let b = bodies[i];
    lemma_orbit_offset_bounded(b);
    match b.parent {
        Option::None => {
            assert(bounded3(position_spec(bodies, i), (i + 1) * BODY_RAD_LIM_FP as int))
                by (nonlinear_arith)
                requires
                    0 <= i,
                    bounded3(position_spec(bodies, i), BODY_RAD_LIM_FP as int),
                    BODY_RAD_LIM_FP == 0x400_0000,
            ;
        },
        Option::Some(p) => {
            lemma_position_bounded(bodies, p as int);
            assert(bounded3(position_spec(bodies, i), (i + 1) * BODY_RAD_LIM_FP as int))
                by (nonlinear_arith)
                requires
                    0 <= p < i,
                    bounded3(position_spec(bodies, p as int), (p as int + 1) * BODY_RAD_LIM_FP as int),
                    bounded3(orbit_offset(bodies[i]), BODY_RAD_LIM_FP as int),
                    position_spec(bodies, i) == position_spec(bodies, p as int)
                        || position_spec(bodies, i) == vadd(position_spec(bodies, p as int),
                        orbit_offset(bodies[i])),
                    vadd(position_spec(bodies, p as int), orbit_offset(bodies[i])).x as int
                        == position_spec(bodies, p as int).x + orbit_offset(bodies[i]).x
                        || !(-0x8000_0000_0000 <= position_spec(bodies, p as int).x
                        + orbit_offset(bodies[i]).x <= 0x8000_0000_0000),
                    vadd(position_spec(bodies, p as int), orbit_offset(bodies[i])).y as int
                        == position_spec(bodies, p as int).y + orbit_offset(bodies[i]).y
                        || !(-0x8000_0000_0000 <= position_spec(bodies, p as int).y
                        + orbit_offset(bodies[i]).y <= 0x8000_0000_0000),
                    vadd(position_spec(bodies, p as int), orbit_offset(bodies[i])).z as int
                        == position_spec(bodies, p as int).z + orbit_offset(bodies[i]).z
                        || !(-0x8000_0000_0000 <= position_spec(bodies, p as int).z
                        + orbit_offset(bodies[i]).z <= 0x8000_0000_0000),
                    BODY_RAD_LIM_FP == 0x400_0000,
            ;
        },
    }
    assert((i + 1) * BODY_RAD_LIM_FP as int <= 32 * BODY_RAD_LIM_FP as int) by (nonlinear_arith)
        requires
            0 <= i < 32,
            BODY_RAD_LIM_FP == 0x400_0000,
    ;
    assert(bounded3(position_spec(bodies, i), WORLD_LIM_FP as int)) by (nonlinear_arith)
        requires
            bounded3(position_spec(bodies, i), (i + 1) * BODY_RAD_LIM_FP as int),
            (i + 1) * BODY_RAD_LIM_FP as int <= 32 * BODY_RAD_LIM_FP as int,
            BODY_RAD_LIM_FP == 0x400_0000,
            WORLD_LIM_FP == 0x8000_0000,
    ;
}

pub struct SolarSystem {
    pub bodies: Vec<Body>,
}

/// The fixed demo scene: a star, three planets and one moon, in list order.
pub open spec fn demo_bodies() -> Seq<Body> {
    seq![
        Body {
            name: "Sol",
            kind: BodyKind::Star,
            radius: 524288,
            color: 0xFFFFD27F,
            orbit_radius: 0,
            orbit_speed: 0,
            angle: 0,
            parent: Option::None,
        },
        Body {
            name: "Azurea",
            kind: BodyKind::Planet,
            radius: 209715,
            color: 0xFF5CC8FF,
            orbit_radius: 1638400,
            orbit_speed: 78643,
            angle: 0,
            parent: Option::Some(0usize),
        },
        Body {
            name: "Rosalia",
            kind: BodyKind::Planet,
            radius: 294912,
            color: 0xFFFF7AC8,
            orbit_radius: 2949120,
            orbit_speed: 45875,
            angle: 68629,
            parent: Option::Some(0usize),
        },
        Body {
            name: "Verdania",
            kind: BodyKind::Planet,
            radius: 353894,
            color: 0xFF8DFF8D,
            orbit_radius: 4587520,
            orbit_speed: 26214,
            angle: 102944,
            parent: Option::Some(0usize),
        },
        Body {
            name: "Luna Esmeralda",
            kind: BodyKind::Moon,
            radius: 117965,
            color: 0xFFCFEFFF,
            orbit_radius: 655360,
            orbit_speed: 131072,
            angle: 51472,
            parent: Option::Some(3usize),
        },
    ]
}

impl SolarSystem {
    /// A valid system: see [`bodies_wf`].
    pub open spec fn wf(self) -> bool {
        bodies_wf(self.bodies@)
    }

    /// The demo scene: a star at the origin, three planets orbiting it at
    /// growing radii and falling angular velocities, and a moon around the
    /// third planet.
    pub fn new_demo() -> (r: SolarSystem)
        ensures
            r.wf(),
            r.bodies@ == demo_bodies(),
    {
        let mut bodies: Vec<Body> = Vec::new();
        bodies.push(
            Body {
                name: "Sol",
                kind: BodyKind::Star,
                radius: 524288,
                color: 0xFFFFD27F,
                orbit_radius: 0,
                orbit_speed: 0,
                angle: 0,
                parent: Option::None,
            },
        );
        bodies.push(
            Body {
                name: "Azurea",
                kind: BodyKind::Planet,
                radius: 209715,
                color: 0xFF5CC8FF,
                orbit_radius: 1638400,
                orbit_speed: 78643,
                angle: 0,
                parent: Option::Some(0usize),
            },
        );
        bodies.push(
            Body {
                name: "Rosalia",
                kind: BodyKind::Planet,
                radius: 294912,
                color: 0xFFFF7AC8,
                orbit_radius: 2949120,
                orbit_speed: 45875,
                angle: 68629,
                parent: Option::Some(0usize),
            },
        );
        bodies.push(
            Body {
                name: "Verdania",
                kind: BodyKind::Planet,
                radius: 353894,
                color: 0xFF8DFF8D,
                orbit_radius: 4587520,
                orbit_speed: 26214,
                angle: 102944,
                parent: Option::Some(0usize),
            },
        );
        bodies.push(
            Body {
                name: "Luna Esmeralda",
                kind: BodyKind::Moon,
                radius: 117965,
                color: 0xFFCFEFFF,
                orbit_radius: 655360,
                orbit_speed: 131072,
                angle: 51472,
                parent: Option::Some(3usize),
            },
        );
        proof {
            assert(bodies@ =~= demo_bodies());
        }
        SolarSystem { bodies }
    }

    /// Advance every body's orbital phase by one frame.
    pub fn update(&mut self, dt: i64)
        requires
            old(self).wf(),
            0 <= dt <= BODY_MAX_DT_FP,
        ensures
            final(self).wf(),
            final(self).bodies@.len() == old(self).bodies@.len(),
            forall|i: int|
                0 <= i < final(self).bodies@.len() ==> #[trigger] final(self).bodies@[i]
                    == (Body {
                    angle: next_angle(old(self).bodies@[i], dt as int) as i64,
                    ..old(self).bodies@[i]
                }),
    {
        let n = self.bodies.len();
        let mut i: usize = 0;
        while i < n
            invariant
                self.bodies@.len() == n,
                n == old(self).bodies@.len(),
                old(self).wf(),
                0 <= dt <= BODY_MAX_DT_FP,
                i <= n,
                forall|j: int|
                    i <= j < n ==> #[trigger] self.bodies@[j] == old(self).bodies@[j],
                forall|j: int|
                    0 <= j < i ==> #[trigger] self.bodies@[j] == (Body {
                        angle: next_angle(old(self).bodies@[j], dt as int) as i64,
                        ..old(self).bodies@[j]
                    }),
            decreases n - i,
        {
            let mut b = self.bodies[i];
            b.update(dt);
            self.bodies[i] = b;
            i = i + 1;
        }
        proof {
            assert forall|i2: int| 0 <= i2 < final(self).bodies@.len() implies (
            #[trigger] final(self).bodies@[i2]).wf() && (final(self).bodies@[i2].parent is Some
                ==> final(self).bodies@[i2].parent.unwrap() < i2) by {
                assert(old(self).bodies@[i2].wf());
            }
        }
    }

    /// The resolved world position of the body at `index`.
    pub fn body_position(&self, index: usize) -> (r: Vec3)
        requires
            self.wf(),
            index < self.bodies@.len(),
        ensures
            r == position_spec(self.bodies@, index as int),
            bounded3(r, WORLD_LIM_FP as int),
        decreases index,
    {
        proof {
            lemma_position_bounded(self.bodies@, index as int);
        }
        let b = self.bodies[index];
        match b.parent {
            Option::None => match b.kind {
                BodyKind::Star => Vec3::zero(),
                _ => orbit_offset_exec(&b),
            },
            Option::Some(parent_idx) => {
                if parent_idx >= index {
                    // a well-formed list has no such link
                    proof {
                        assert(false);
                    }
                    Vec3::zero()
                } else {
                    let parent_pos = self.body_position(parent_idx);
                    if b.orbit_radius == 0 {
                        parent_pos
                    } else {
                        proof {
                            lemma_position_bounded(self.bodies@, parent_idx as int);
                            lemma_orbit_offset_bounded(b);
                        }
                        parent_pos.add(orbit_offset_exec(&b))
                    }
                }
            },
        }
    }
}

/// One sample point of an orbit ring: the parent center displaced by the
/// orbital radius at the sample's angle (64 equal steps around the circle).
pub open spec fn ring_point(center: Vec3, orr: int, s: int) -> Vec3 {
    let t = s * TWO_PI_FP / 64;
    Vec3 {
        x: (center.x + fmul(orr, cos_fx(t))) as i64,
        y: center.y,
        z: (center.z + fmul(orr, sin_fx(t))) as i64,
    }
}

/// The orbit ring from sample `s` on: each visible sample is connected by a
/// line to the previously seen visible sample; an invisible sample breaks
/// the chain, so no segment is drawn across it.
pub open spec fn ring_pass(
    buf: Seq<u32>,
    w: int,
    h: int,
    cam: Camera,
    center: Vec3,
    orr: int,
    col: u32,
    s: int,
    prev: Option<(i32, i32)>,
) -> Seq<u32>
    decreases 65 - s,
{
    if s > 64 {
        buf
    } else {
        match project_spec(w, h, ring_point(center, orr, s), cam) {
            Option::None => ring_pass(buf, w, h, cam, center, orr, col, s + 1, Option::None),
            Option::Some(pt) => {
                let buf2 = match prev {
                    Option::Some(pp) => line_paint(
                        buf,
                        w,
                        pp.0 as int,
                        pp.1 as int,
                        pt.0 as int,
                        pt.1 as int,
                        col,
                    ),
                    Option::None => buf,
                };
                ring_pass(buf2, w, h, cam, center, orr, col, s + 1, Option::Some(pt))
            },
        }
    }
}

/// The orbit center of a body: its parent's resolved position, or the origin
/// for a root body.
pub open spec fn orbit_center(bodies: Seq<Body>, i: int) -> Vec3 {
    match bodies[i].parent {
        Option::None => Vec3 { x: 0, y: 0, z: 0 },
        Option::Some(p) => position_spec(bodies, p as int),
    }
}

/// The orbit rings of the first `n` bodies, in list order: every planet or
/// moon with a positive orbital radius contributes one ring around its
/// parent, planets and moons in their own ring colors.
pub open spec fn orbits_pass(
    buf: Seq<u32>,
    w: int,
    h: int,
    cam: Camera,
    bodies: Seq<Body>,
    n: int,
) -> Seq<u32>
    decreases n,
{
    if n <= 0 {
        buf
    } else {
        let buf1 = orbits_pass(buf, w, h, cam, bodies, n - 1);
        let b = bodies[n - 1];
        if b.kind is Star || b.orbit_radius <= 0 {
            buf1
        } else {
            let col = if b.kind is Planet {
                ORBIT_COLOR_PLANET
            } else {
                ORBIT_COLOR_MOON
            };
            ring_pass(buf1, w, h, cam, orbit_center(bodies, n - 1), b.orbit_radius as int, col, 0,
                Option::None)
        }
    }
}

/// The on-screen disc radius estimated from the projected center and the
/// projected radius sample: their pixel distance, at least two pixels so a
/// distant body never disappears.
pub open spec fn disc_radius_px(pc: (i32, i32), ps: (i32, i32)) -> int {
    let dx = ps.0 - pc.0;
    let dy = ps.1 - pc.1;
    let r = clip(sqrt_floor(dx * dx + dy * dy), 0, 0x7FFF_FFFF);
    if r < 2 {
        2
    } else {
        r
    }
}

/// A body's screen footprint: the projected center together with the disc
/// radius, none when the center is not visible, and a four-pixel fallback
/// radius when only the radius sample is invisible.
pub open spec fn project_body_spec(
    w: int,
    h: int,
    bodies: Seq<Body>,
    i: int,
    cam: Camera,
) -> Option<((i32, i32), i32)> {
    let center = position_spec(bodies, i);
    match project_spec(w, h, center, cam) {
        Option::None => Option::None,
        Option::Some(pc) => {
            let sample = vadd(center, Vec3 { x: bodies[i].radius, y: 0, z: 0 });
            let rpx = match project_spec(w, h, sample, cam) {
                Option::Some(ps) => disc_radius_px(pc, ps),
                Option::None => 4,
            };
            Option::Some((pc, rpx as i32))
        },
    }
}

/// The buffer with the disc of body `i` painted, when its center projects.
pub open spec fn body_disc(
    buf: Seq<u32>,
    w: int,
    h: int,
    cam: Camera,
    bodies: Seq<Body>,
    i: int,
) -> Seq<u32> {
    match project_body_spec(w, h, bodies, i, cam) {
        Option::None => buf,
        Option::Some((pc, rpx)) => disk_paint(
            buf,
            w,
            pc.0 as int,
            pc.1 as int,
            rpx as int,
            bodies[i].color,
        ),
    }
}

/// The discs of the first `n` bodies, painted in list order (so later bodies
/// paint over earlier ones; list order is the only depth cue).
pub open spec fn bodies_pass(
    buf: Seq<u32>,
    w: int,
    h: int,
    cam: Camera,
    bodies: Seq<Body>,
    n: int,
) -> Seq<u32>
    decreases n,
{
    if n <= 0 {
        buf
    } else {
        body_disc(bodies_pass(buf, w, h, cam, bodies, n - 1), w, h, cam, bodies, n - 1)
    }
}

/// One full scene pass: all orbit rings, then all body discs.
pub open spec fn render_spec(
    buf: Seq<u32>,
    w: int,
    h: int,
    cam: Camera,
    bodies: Seq<Body>,
) -> Seq<u32> {
    bodies_pass(
        orbits_pass(buf, w, h, cam, bodies, bodies.len() as int),
        w,
        h,
        cam,
        bodies,
        bodies.len() as int,
    )
}

impl SolarSystem {
    /// A body's screen footprint: its projected center and estimated disc
    /// radius in pixels, or none when the center is not visible.
    pub fn project_body(&self, index: usize, renderer: &Renderer, camera: &Camera) -> (r: Option<
        ((i32, i32), i32),
    >)
        requires
            self.wf(),
            renderer.wf(),
            camera.wf(),
            index < self.bodies@.len(),
        ensures
            r == project_body_spec(
                renderer.width as int,
                renderer.height as int,
                self.bodies@,
                index as int,
                *camera,
            ),
    {
        let center = self.body_position(index);
        match renderer.project_point(center, camera) {
            Option::None => Option::None,
            Option::Some(pc) => {
                let b = self.bodies[index];
                let sample = center.add(Vec3::new(b.radius, 0, 0));
                let rpx: i32 = match renderer.project_point(sample, camera) {
                    Option::Some(ps) => {
                        let dx: i64 = (ps.0 as i64) - (pc.0 as i64);
                        let dy: i64 = (ps.1 as i64) - (pc.1 as i64);
                        proof {
                            assert(0 <= (dx as int) * (dx as int) <= 0x1_0000_0000_0000_0000
                                && 0 <= (dy as int) * (dy as int) <= 0x1_0000_0000_0000_0000)
                                by (nonlinear_arith)
                                requires
                                    -0x1_0000_0000 <= dx <= 0x1_0000_0000,
                                    -0x1_0000_0000 <= dy <= 0x1_0000_0000,
                            ;
                        }
                        let sq: u128 = ((dx as i128) * (dx as i128) + (dy as i128) * (
                        dy as i128)) as u128;
                        let rt = isqrt(sq);
                        proof {
                            lemma_sqrt_floor_unique(sq as int, rt as int);
                        }
                        let rcl: i64 = if rt > 0x7FFF_FFFF {
                            0x7FFF_FFFF
                        } else {
                            rt as i64
                        };
                        if rcl < 2 {
                            2
                        } else {
                            rcl as i32
                        }
                    },
                    Option::None => 4,
                };
                Option::Some((pc, rpx))
            },
        }
    }

    /// Draw the whole scene: every orbit ring, then every body disc, in list
    /// order.
    pub fn render(&self, renderer: &mut Renderer, camera: &Camera)
        requires
            self.wf(),
            old(renderer).wf(),
            camera.wf(),
        ensures
            final(renderer).wf(),
            final(renderer).width == old(renderer).width,
            final(renderer).height == old(renderer).height,
            final(renderer).pixels() == render_spec(
                old(renderer).pixels(),
                old(renderer).width as int,
                old(renderer).height as int,
                *camera,
                self.bodies@,
            ),
    {
        let ghost buf0 = renderer.pixels();
        let ghost w = old(renderer).width as int;
        let ghost h = old(renderer).height as int;
        let n = self.bodies.len();
        let mut i: usize = 0;
        while i < n
            invariant
                self.wf(),
                renderer.wf(),
                camera.wf(),
                renderer.width == old(renderer).width,
                renderer.height == old(renderer).height,
                w == old(renderer).width as int,
                h == old(renderer).height as int,
                buf0 == old(renderer).pixels(),
                n == self.bodies@.len(),
                i <= n,
                renderer.pixels() == orbits_pass(buf0, w, h, *camera, self.bodies@, i as int),
            decreases n - i,
        {
            let b = self.bodies[i];
            match b.kind {
                BodyKind::Star => {},
                _ => {
                    if b.orbit_radius > 0 {
                        let center = match b.parent {
                            Option::None => Vec3::zero(),
                            Option::Some(parent_idx) => {
                                proof {
                                    assert(self.bodies@[i as int].wf());
                                    lemma_position_bounded(self.bodies@, parent_idx as int);
                                }
                                self.body_position(parent_idx)
                            },
                        };
                        let col = match b.kind {
                            BodyKind::Planet => ORBIT_COLOR_PLANET,
                            BodyKind::Moon => ORBIT_COLOR_MOON,
                            BodyKind::Star => ORBIT_COLOR_PLANET,
                        };
                        proof {
                            assert(center == orbit_center(self.bodies@, i as int));
                            assert(bounded3(center, WORLD_LIM_FP as int));
                        }
                        let ghost ring_start = renderer.pixels();
                        let mut prev: Option<(i32, i32)> = Option::None;
                        let mut s: i64 = 0;
                        while s <= 64
                            invariant
                                self.wf(),
                                renderer.wf(),
                                camera.wf(),
                                renderer.width == old(renderer).width,
                                renderer.height == old(renderer).height,
                                w == old(renderer).width as int,
                                h == old(renderer).height as int,
                                0 <= s <= 65,
                                bounded3(center, WORLD_LIM_FP as int),
                                0 < b.orbit_radius <= BODY_RAD_LIM_FP,
                                ring_pass(
                                    renderer.pixels(),
                                    w,
                                    h,
                                    *camera,
                                    center,
                                    b.orbit_radius as int,
                                    col,
                                    s as int,
                                    prev,
                                ) == ring_pass(
                                    ring_start,
                                    w,
                                    h,
                                    *camera,
                                    center,
                                    b.orbit_radius as int,
                                    col,
                                    0,
                                    Option::None,
                                ),
                            decreases 65 - s,
                        {
                            let t: i64 = s * TWO_PI_FP / 64;
                            let co = crate::fixed::cos_fp(t);
                            let si = crate::fixed::sin_fp(t);
                            proof {
                                assert(-0x4000_0000_0000 <= b.orbit_radius as int * co as int
                                    <= 0x4000_0000_0000 && -0x4000_0000_0000 <= b.orbit_radius as int
                                    * si as int <= 0x4000_0000_0000) by (nonlinear_arith)
                                    requires
                                        0 <= b.orbit_radius <= 0x400_0000,
                                        -0x1_0000 <= co <= 0x1_0000,
                                        -0x1_0000 <= si <= 0x1_0000,
                                ;
                                lemma_tdiv_bound(b.orbit_radius as int * co as int, FP_ONE as int,
                                    0x4000_0000_0000);
                                lemma_tdiv_bound(b.orbit_radius as int * si as int, FP_ONE as int,
                                    0x4000_0000_0000);
                            }
                            let wx = center.x + fp_mul(b.orbit_radius, co);
                            let wz = center.z + fp_mul(b.orbit_radius, si);
                            let world = Vec3::new(wx, center.y, wz);
                            proof {
                                assert(world == ring_point(center, b.orbit_radius as int,
                                    s as int));
                            }
                            match renderer.project_point(world, camera) {
                                Option::Some(screen) => {
                                    match prev {
                                        Option::Some(pp) => {
                                            renderer.draw_line(pp, screen, col);
                                        },
                                        Option::None => {},
                                    }
                                    prev = Option::Some(screen);
                                },
                                Option::None => {
                                    prev = Option::None;
                                },
                            }
                            s = s + 1;
                        }
                        proof {
                            assert(ring_pass(renderer.pixels(), w, h, *camera, center,
                                b.orbit_radius as int, col, s as int, prev) == renderer.pixels());
                        }
                    }
                },
            }
            proof {
                assert(renderer.pixels() == orbits_pass(buf0, w, h, *camera, self.bodies@, i as int
                    + 1));
            }
            i = i + 1;
        }
        let ghost mid = renderer.pixels();
        let mut j: usize = 0;
        while j < n
            invariant
                self.wf(),
                renderer.wf(),
                camera.wf(),
                renderer.width == old(renderer).width,
                renderer.height == old(renderer).height,
                w == old(renderer).width as int,
                h == old(renderer).height as int,
                n == self.bodies@.len(),
                j <= n,
                mid == orbits_pass(old(renderer).pixels(), w, h, *camera, self.bodies@, n as int),
                renderer.pixels() == bodies_pass(mid, w, h, *camera, self.bodies@, j as int),
            decreases n - j,
        {
            match self.project_body(j, renderer, camera) {
                Option::Some(pr) => {
                    renderer.draw_filled_circle(pr.0, pr.1, self.bodies[j].color);
                },
                Option::None => {},
            }
            j = j + 1;
        }
    }
}

/// The circular orbit offset, computed.
fn orbit_offset_exec(b: &Body) -> (r: Vec3)
    requires
        b.wf(),
    ensures
        r == orbit_offset(*b),
        bounded3(r, BODY_RAD_LIM_FP as int),
{
    proof {
        lemma_orbit_offset_bounded(*b);
        lemma_trig_bounds(b.angle as int);
        assert(-0x4000_0000_0000 <= b.orbit_radius as int * cos_fx(b.angle as int)
            <= 0x4000_0000_0000) by (nonlinear_arith)
            requires
                0 <= b.orbit_radius <= 0x400_0000,
                -0x1_0000 <= cos_fx(b.angle as int) <= 0x1_0000,
        ;
        assert(-0x4000_0000_0000 <= b.orbit_radius as int * sin_fx(b.angle as int)
            <= 0x4000_0000_0000) by (nonlinear_arith)
            requires
                0 <= b.orbit_radius <= 0x400_0000,
                -0x1_0000 <= sin_fx(b.angle as int) <= 0x1_0000,
        ;
    }
    let c = crate::fixed::cos_fp(b.angle);
    let s = crate::fixed::sin_fp(b.angle);
    Vec3 { x: fp_mul(b.orbit_radius, c), y: 0, z: fp_mul(b.orbit_radius, s) }
}

} // verus!
