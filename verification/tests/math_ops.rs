//! Fixed-point scalar and vector arithmetic.

use orbit_render::fixed::{sin_fp, cos_fp, fp_mul, fp_div, FP_ONE, HALF_PI_FP, PI_FP, TWO_PI_FP};
use orbit_render::math::{Vec2, Vec3};
use orbit_render::renderer::Renderer;

#[test]
fn fixed_point_products_and_quotients() {
    assert_eq!(fp_mul(3 * FP_ONE, 4 * FP_ONE), 12 * FP_ONE);
    assert_eq!(fp_mul(-3 * FP_ONE, 4 * FP_ONE), -12 * FP_ONE);
    assert_eq!(fp_div(12 * FP_ONE, 4 * FP_ONE), 3 * FP_ONE);
    // half of one, exactly
    assert_eq!(fp_mul(FP_ONE / 2, FP_ONE), FP_ONE / 2);
}

#[test]
fn trig_matches_the_real_functions() {
    for k in -20..=20i64 {
        let a = k * 20000;
        let s = sin_fp(a) as f64 / FP_ONE as f64;
        let c = cos_fp(a) as f64 / FP_ONE as f64;
        let ar = a as f64 / FP_ONE as f64;
        assert!((s - ar.sin()).abs() < 0.001, "sin at {ar}");
        assert!((c - ar.cos()).abs() < 0.001, "cos at {ar}");
    }
}

#[test]
fn trig_landmarks() {
    assert_eq!(sin_fp(0), 0);
    assert_eq!(cos_fp(0), FP_ONE);
    assert_eq!(sin_fp(HALF_PI_FP), FP_ONE);
    assert_eq!(cos_fp(PI_FP), -FP_ONE);
    // a full turn returns to the start
    assert_eq!(sin_fp(TWO_PI_FP), sin_fp(0));
}

#[test]
fn normalizing_the_zero_vector_is_a_no_op() {
    let z = Vec3::zero();
    let n = z.normalized();
    assert_eq!((n.x, n.y, n.z), (0, 0, 0));
}

#[test]
fn normalization_yields_unit_length() {
    let v = Vec3::new(3 * FP_ONE, 4 * FP_ONE, 0);
    assert_eq!(v.length(), 5 * FP_ONE);
    let n = v.normalized();
    let len = n.length() as f64 / FP_ONE as f64;
    assert!((len - 1.0).abs() < 0.001);
}

#[test]
fn cross_product_of_the_axes() {
    let x = Vec3::new(FP_ONE, 0, 0);
    let y = Vec3::new(0, FP_ONE, 0);
    let z = x.cross(y);
    assert_eq!((z.x, z.y, z.z), (0, 0, FP_ONE));
}

#[test]
fn dot_product_of_orthogonal_vectors_is_zero() {
    let x = Vec3::new(FP_ONE, 0, 0);
    let y = Vec3::new(0, FP_ONE, 0);
    assert_eq!(x.dot(y), 0);
    assert_eq!(x.dot(x), FP_ONE);
}

#[test]
fn flat_projection_offsets_from_the_screen_center() {
    let r = Renderer::new(100, 80);
    let world = Vec2 { x: 3 * FP_ONE, y: 2 * FP_ONE };
    let cam = Vec2 { x: FP_ONE, y: FP_ONE };
    let (sx, sy) = r.world_to_screen_2d(world, cam, 2 * FP_ONE);
    assert_eq!((sx, sy), (54, 42));
}
