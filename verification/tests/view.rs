//! Camera, projector, skybox, ship and warp behavior.

use orbit_render::camera::Camera;
use orbit_render::fixed::FP_ONE;
use orbit_render::input::InputState;
use orbit_render::math::Vec3;
use orbit_render::renderer::Renderer;
use orbit_render::ship::Ship;
use orbit_render::skybox::draw_skybox;
use orbit_render::warp::WarpState;
use orbit_render::world::system::SolarSystem;

#[test]
fn projecting_the_origin_from_the_demo_camera() {
    let r = Renderer::new(800, 600);
    let cam = Camera::new();
    let p = r.project_point(Vec3::new(0, 0, 0), &cam);
    let (sx, sy) = p.expect("origin is in front of the demo camera");
    // horizontally centered; vertically below the view center, since the
    // camera sits above the origin and tilts down less than the sight line
    assert_eq!(sx, 400);
    assert!(sy > 300, "sy = {sy}");
}

#[test]
fn projection_is_repeatable() {
    let r = Renderer::new(800, 600);
    let cam = Camera::new();
    let w = Vec3::new(3 * FP_ONE, 2 * FP_ONE, -5 * FP_ONE);
    assert_eq!(r.project_point(w, &cam), r.project_point(w, &cam));
}

#[test]
fn points_behind_the_camera_are_not_visible() {
    let r = Renderer::new(800, 600);
    let cam = Camera::new();
    // directly behind the eye, along +z
    let behind = Vec3::new(0, 30 * FP_ONE, 200 * FP_ONE);
    assert_eq!(r.project_point(behind, &cam), None);
}

#[test]
fn points_just_beyond_the_near_plane_are_visible() {
    let r = Renderer::new(800, 600);
    let mut cam = Camera::new();
    cam.pitch = 0;
    // one world unit in front of the eye (the camera looks towards -z)
    let near = Vec3::new(0, 30 * FP_ONE, 79 * FP_ONE);
    assert!(r.project_point(near, &cam).is_some());
}

#[test]
fn camera_turns_and_wraps() {
    let mut cam = Camera::new();
    let mut input = InputState::new();
    input.look_left = true;
    cam.update(FP_ONE, &input);
    // 1.5 rad/s for one second
    assert_eq!(cam.yaw, 98304);
}

#[test]
fn camera_pitch_is_clamped() {
    let mut cam = Camera::new();
    let mut input = InputState::new();
    input.look_up = true;
    for _ in 0..10 {
        cam.update(FP_ONE, &input);
    }
    assert_eq!(cam.pitch, 85197);
}

#[test]
fn camera_moves_straight_up_at_full_speed() {
    let mut cam = Camera::new();
    let mut input = InputState::new();
    input.move_up = true;
    cam.update(FP_ONE, &input);
    // 50 units per second
    assert_eq!(cam.position.y, 1966080 + 50 * FP_ONE);
    assert_eq!(cam.position.x, 0);
}

#[test]
fn skybox_paints_gradient_and_stars() {
    let mut r = Renderer::new(64, 32);
    draw_skybox(&mut r);
    // (0, 0) hashes to a dim star
    assert_eq!(r.buffer()[0], 0xFF202020);
    // (1, 0) is plain sky: full gradient at the top row
    assert_eq!(r.buffer()[1], 0xFF050832);
}

#[test]
fn ship_rides_in_front_of_the_camera() {
    let cam = Camera::new();
    let mut ship = Ship::new();
    ship.update(0, &cam);
    // fifteen units along the forward vector
    assert_eq!(ship.position.x, 0);
    assert_eq!(ship.position.y, 1966080 - 15 * 19368);
    assert_eq!(ship.position.z, 5242880 - 15 * 62608);
}

#[test]
fn ship_marker_appears_on_screen() {
    let mut r = Renderer::new(200, 200);
    r.clear(0);
    let mut cam = Camera::new();
    cam.position = Vec3::new(0, 0, 20 * FP_ONE);
    cam.pitch = 0;
    let mut ship = Ship::new();
    ship.update(0, &cam);
    ship.render(&mut r, &cam);
    assert!(r.buffer().iter().any(|&c| c == 0xFFFFFFFF));
    assert!(r.buffer().iter().any(|&c| c == 0xFFFF9933));
}

#[test]
fn animated_warp_interpolates_and_finishes() {
    let mut warp = WarpState::new();
    let mut cam = Camera::new();
    warp.start_animated(Vec3::new(0, 0, 0), Vec3::new(100 * FP_ONE, 0, 0), FP_ONE);
    assert!(warp.active);
    warp.update(FP_ONE / 2, &mut cam);
    assert_eq!(cam.position.x, 50 * FP_ONE);
    assert!(warp.active);
    warp.update(FP_ONE / 2, &mut cam);
    assert_eq!(cam.position.x, 100 * FP_ONE);
    assert!(!warp.active);
}

#[test]
fn rendering_the_demo_scene_draws_bodies() {
    let mut r = Renderer::new(320, 240);
    r.clear(0);
    let sys = SolarSystem::new_demo();
    let cam = Camera::new();
    sys.render(&mut r, &cam);
    // the star's disc color appears near the screen center
    assert!(r.buffer().iter().any(|&c| c == 0xFFFFD27F));
    // an orbit ring color appears somewhere
    assert!(r.buffer().iter().any(|&c| c == 0xFF20254F));
}

#[test]
fn project_body_reports_a_footprint() {
    let r = Renderer::new(320, 240);
    let sys = SolarSystem::new_demo();
    let cam = Camera::new();
    let f = sys.project_body(0, &r, &cam);
    let ((_, _), radius_px) = f.expect("the star is visible from the demo camera");
    assert!(radius_px >= 2);
}

#[test]
fn input_starts_idle() {
    let input = InputState::new();
    assert!(!input.move_forward && !input.warp_animated && !input.look_left);
}
