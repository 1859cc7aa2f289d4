//! Scene-graph behavior: demo topology, position resolution, phase updates.

use orbit_render::fixed::FP_ONE;
use orbit_render::world::body::{Body, BodyKind};
use orbit_render::world::system::SolarSystem;

fn fp(v: f64) -> i64 {
    (v * FP_ONE as f64).round() as i64
}

fn to_f(v: i64) -> f64 {
    v as f64 / FP_ONE as f64
}

#[test]
fn demo_topology() {
    let sys = SolarSystem::new_demo();
    assert_eq!(sys.bodies.len(), 5);
    assert!(matches!(sys.bodies[0].kind, BodyKind::Star));
    assert!(matches!(sys.bodies[4].kind, BodyKind::Moon));
    assert_eq!(sys.bodies[0].parent, None);
    assert_eq!(sys.bodies[1].parent, Some(0));
    assert_eq!(sys.bodies[2].parent, Some(0));
    assert_eq!(sys.bodies[3].parent, Some(0));
    assert_eq!(sys.bodies[4].parent, Some(3));
    assert_eq!(sys.bodies[1].orbit_radius, 25 * FP_ONE);
    assert_eq!(sys.bodies[4].orbit_radius, 10 * FP_ONE);
}

#[test]
fn star_sits_at_origin() {
    let sys = SolarSystem::new_demo();
    let p = sys.body_position(0);
    assert_eq!((p.x, p.y, p.z), (0, 0, 0));
}

#[test]
fn planet_at_phase_zero_lies_on_x_axis() {
    let sys = SolarSystem::new_demo();
    let p = sys.body_position(1);
    assert_eq!((p.x, p.y, p.z), (25 * FP_ONE, 0, 0));
}

#[test]
fn planet_advances_linearly_then_moves_on_its_circle() {
    let mut sys = SolarSystem::new_demo();
    sys.update(FP_ONE);
    // angle = 0 + 1.2 * 1.0, in fixed-point units
    assert_eq!(sys.bodies[1].angle, 78643);
    let p = sys.body_position(1);
    assert!((to_f(p.x) - 25.0 * (1.2f64).cos()).abs() < 0.01);
    assert_eq!(p.y, 0);
    assert!((to_f(p.z) - 25.0 * (1.2f64).sin()).abs() < 0.01);
}

#[test]
fn phase_update_is_exactly_linear() {
    let mut sys = SolarSystem::new_demo();
    let before = sys.bodies[2].angle;
    let speed = sys.bodies[2].orbit_speed;
    let dt = FP_ONE / 2;
    sys.update(dt);
    assert_eq!(sys.bodies[2].angle, before + (speed * dt) / FP_ONE);
}

#[test]
fn moon_resolves_relative_to_its_planet() {
    let sys = SolarSystem::new_demo();
    let planet = sys.body_position(3);
    let moon = sys.body_position(4);
    let quarter = std::f64::consts::PI / 4.0;
    assert!((to_f(moon.x) - (to_f(planet.x) + 10.0 * quarter.cos())).abs() < 0.01);
    assert_eq!(moon.y, planet.y);
    assert!((to_f(moon.z) - (to_f(planet.z) + 10.0 * quarter.sin())).abs() < 0.01);
}

#[test]
fn zero_orbit_child_tracks_parent() {
    let mut sys = SolarSystem::new_demo();
    sys.bodies.push(Body {
        name: "Shadow",
        kind: BodyKind::Moon,
        radius: fp(1.0),
        color: 0xFF000000,
        orbit_radius: 0,
        orbit_speed: fp(3.0),
        angle: fp(2.0),
        parent: Some(2),
    });
    for _ in 0..7 {
        let parent = sys.body_position(2);
        let child = sys.body_position(5);
        assert_eq!((child.x, child.y, child.z), (parent.x, parent.y, parent.z));
        sys.update(fp(0.25));
    }
}

#[test]
fn update_touches_only_angles() {
    let mut sys = SolarSystem::new_demo();
    let names: Vec<&str> = sys.bodies.iter().map(|b| b.name).collect();
    let radii: Vec<i64> = sys.bodies.iter().map(|b| b.radius).collect();
    sys.update(fp(0.125));
    for i in 0..5 {
        assert_eq!(sys.bodies[i].name, names[i]);
        assert_eq!(sys.bodies[i].radius, radii[i]);
    }
}
