//! A renderer without a graphics card: vectors, matrices and quaternions in binary32
//! arithmetic, a camera, the way of a vertex from the world to the screen, meshes with
//! their boxes, and a flock to draw.

use vstd::prelude::*;

pub mod big;
pub mod bits;
pub mod boids;
pub mod camera;
pub mod decimal;
pub mod double;
pub mod double_errors;
pub mod error_laws;
pub mod frame;
pub mod io;
pub mod length_errors;
pub mod math;
pub mod model;
pub mod obj;
pub mod raster;
pub mod rounding_laws;
pub mod screen_errors;
pub mod single;
pub mod single_laws;
pub mod turn_errors;
pub mod whole_laws;

verus! {

/// The widest frame.
pub const MAX_WIDTH: usize = 640 * 2;

/// The highest frame.
pub const MAX_HEIGHT: usize = 360 * 2;

/// The pixels of the largest frame.
pub const MAX_PIXELS: usize = 1280 * 720;

} // verus!
