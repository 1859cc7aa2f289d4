//! Rasterizer behavior: bounds-tolerant writes and exact pixel sets of the
//! primitives.

use orbit_render::renderer::Renderer;
use orbit_render::texture::Texture;

fn px(r: &Renderer, x: usize, y: usize) -> u32 {
    r.buffer()[y * r.width + x]
}

#[test]
fn clear_overwrites_every_pixel() {
    let mut r = Renderer::new(4, 3);
    r.clear(0xFF123456);
    assert_eq!(r.buffer().len(), 12);
    assert!(r.buffer().iter().all(|&c| c == 0xFF123456));
}

#[test]
fn put_pixel_writes_inside() {
    let mut r = Renderer::new(4, 3);
    r.clear(0);
    r.put_pixel(3, 2, 7);
    assert_eq!(px(&r, 3, 2), 7);
    assert_eq!(px(&r, 2, 2), 0);
}

#[test]
fn put_pixel_at_width_is_ignored() {
    let mut r = Renderer::new(4, 3);
    r.clear(9);
    r.put_pixel(4, 0, 7);
    assert!(r.buffer().iter().all(|&c| c == 9));
}

#[test]
fn put_pixel_negative_is_ignored() {
    let mut r = Renderer::new(4, 3);
    r.clear(9);
    r.put_pixel(-1, 1, 7);
    r.put_pixel(1, 3, 7);
    assert!(r.buffer().iter().all(|&c| c == 9));
}

#[test]
fn filled_circle_is_the_integer_disk() {
    let mut r = Renderer::new(7, 7);
    r.clear(0);
    r.draw_filled_circle((3, 3), 1, 5);
    for y in 0..7i64 {
        for x in 0..7i64 {
            let inside = (x - 3) * (x - 3) + (y - 3) * (y - 3) <= 1;
            assert_eq!(px(&r, x as usize, y as usize) == 5, inside);
        }
    }
}

#[test]
fn filled_circle_zero_radius_draws_nothing() {
    let mut r = Renderer::new(7, 7);
    r.clear(1);
    r.draw_filled_circle((3, 3), 0, 5);
    assert!(r.buffer().iter().all(|&c| c == 1));
    r.draw_filled_circle((3, 3), -2, 5);
    assert!(r.buffer().iter().all(|&c| c == 1));
}

#[test]
fn triangle_fill_is_winding_independent() {
    let mut a = Renderer::new(12, 10);
    let mut b = Renderer::new(12, 10);
    a.clear(0);
    b.clear(0);
    a.draw_triangle((1, 1), (9, 2), (4, 8), 3);
    b.draw_triangle((1, 1), (4, 8), (9, 2), 3);
    assert_eq!(a.buffer(), b.buffer());
    // the centroid is filled, the far corner is not
    assert_eq!(px(&a, 4, 3), 3);
    assert_eq!(px(&a, 11, 9), 0);
}

#[test]
fn triangle_vertices_are_filled() {
    let mut r = Renderer::new(12, 10);
    r.clear(0);
    r.draw_triangle((1, 1), (9, 2), (4, 8), 3);
    assert_eq!(px(&r, 1, 1), 3);
    assert_eq!(px(&r, 9, 2), 3);
    assert_eq!(px(&r, 4, 8), 3);
}

#[test]
fn line_is_symmetric_in_its_endpoints() {
    let mut a = Renderer::new(10, 8);
    let mut b = Renderer::new(10, 8);
    a.clear(0);
    b.clear(0);
    a.draw_line((0, 0), (9, 5), 2);
    b.draw_line((9, 5), (0, 0), 2);
    assert_eq!(a.buffer(), b.buffer());
    assert_eq!(px(&a, 0, 0), 2);
    assert_eq!(px(&a, 9, 5), 2);
}

#[test]
fn horizontal_and_vertical_lines() {
    let mut r = Renderer::new(10, 8);
    r.clear(0);
    r.draw_line((2, 4), (7, 4), 2);
    for x in 2..=7 {
        assert_eq!(px(&r, x, 4), 2);
    }
    r.draw_line((5, 1), (5, 6), 3);
    for y in 1..=6 {
        assert_eq!(px(&r, 5, y), 3);
    }
}

#[test]
fn single_point_line() {
    let mut r = Renderer::new(10, 8);
    r.clear(0);
    r.draw_line((4, 4), (4, 4), 6);
    assert_eq!(px(&r, 4, 4), 6);
    assert_eq!(r.buffer().iter().filter(|&&c| c == 6).count(), 1);
}

#[test]
fn circle_outline_radius_two() {
    let mut r = Renderer::new(9, 9);
    r.clear(0);
    r.draw_circle((4, 4), 2, 8);
    // the midpoint recurrence for radius 2 visits octant points (2,0), (2,1)
    let expect = [
        (6, 4),
        (2, 4),
        (4, 6),
        (4, 2),
        (6, 5),
        (2, 5),
        (6, 3),
        (2, 3),
        (5, 6),
        (3, 6),
        (5, 2),
        (3, 2),
    ];
    for (x, y) in expect {
        assert_eq!(px(&r, x, y), 8, "expected outline at ({x},{y})");
    }
    assert_eq!(px(&r, 4, 4), 0);
    assert_eq!(px(&r, 0, 0), 0);
}

#[test]
fn circle_outline_nonpositive_radius_draws_nothing() {
    let mut r = Renderer::new(9, 9);
    r.clear(1);
    r.draw_circle((4, 4), 0, 8);
    assert!(r.buffer().iter().all(|&c| c == 1));
}

#[test]
fn textured_disk_paints_only_the_disk() {
    let mut r = Renderer::new(9, 9);
    r.clear(1);
    let tex = Texture::solid(8, 8, 0xFFAB12CD);
    r.draw_textured_sphere(&tex, (4, 4), 2, 0);
    for y in 0..9i64 {
        for x in 0..9i64 {
            let inside = (x - 4) * (x - 4) + (y - 4) * (y - 4) <= 4;
            let c = px(&r, x as usize, y as usize);
            if inside {
                assert_eq!(c, 0xFFAB12CD);
            } else {
                assert_eq!(c, 1);
            }
        }
    }
}

#[test]
fn textured_disk_rotation_moves_the_sample() {
    // a two-cell texture: left half dark, right half light
    let mut pixels = Vec::new();
    for _y in 0..4 {
        for x in 0..4 {
            pixels.push(if x < 2 { 0xFF000011 } else { 0xFF0000EE });
        }
    }
    let tex = Texture::new(4, 4, pixels);
    let mut a = Renderer::new(16, 16);
    let mut b = Renderer::new(16, 16);
    a.clear(0);
    b.clear(0);
    a.draw_textured_sphere(&tex, (8, 8), 5, 0);
    // half a turn: the halves swap sides
    b.draw_textured_sphere(&tex, (8, 8), 5, 205888);
    assert_eq!(px(&a, 3, 8), 0xFF000011);
    assert_eq!(px(&a, 13, 8), 0xFF0000EE);
    assert_eq!(px(&b, 3, 8), 0xFF0000EE);
    assert_eq!(px(&b, 13, 8), 0xFF000011);
}
