//! Vector, matrix and quaternion algebra, and the passage of a vertex from the world to
//! the screen.

pub mod angle;
pub mod cm;
pub mod length_laws;
pub mod mat;
pub mod quat;
pub mod rotation_laws;
pub mod simd_cm;
pub mod transform;
pub mod vec;
pub mod whole_matrices;
