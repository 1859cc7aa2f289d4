//! A software 3D renderer for a small hierarchical orbital scene.
//!
//! Everything is computed in fixed-point arithmetic (16 fractional bits) on
//! plain integers: vector algebra, trigonometry, a pinhole-camera projection
//! from world space to screen space, a pixel-level rasterizer, and the
//! orbital scene graph that drives body positions frame by frame.

pub mod fixed;
pub mod math;
pub mod input;
pub mod camera;
pub mod renderer;
pub mod world;
pub mod skybox;
pub mod ship;
pub mod warp;
pub mod texture;

use vstd::prelude::*;

verus! {

} // verus!
