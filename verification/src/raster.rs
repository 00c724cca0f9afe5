//! What the drawing routines hand to a rasterizer: triangles and lines on the screen.

use crate::math::vec::{Vec2, Vec3};
use crate::single::F32;
use vstd::prelude::*;

verus! {

/// A colour of eight bits a channel.
#[derive(Clone, Copy, Debug, PartialEq, Eq, Structural)]
pub struct Srgb {
    pub r: u8,
    pub g: u8,
    pub b: u8,
    pub a: u8,
}

/// A colour in linear light.
#[derive(Clone, Copy, Debug)]
pub struct LinearRgb {
    pub r: F32,
    pub g: F32,
    pub b: F32,
}

/// A vertex on the screen: the pixel, and the depth for the depth buffer.
#[derive(Clone, Copy, Debug)]
pub struct ScreenVertex {
    pub x: i32,
    pub y: i32,
    pub z: F32,
}

/// How a triangle is filled.
#[derive(Clone, Copy, Debug)]
pub enum Fill {
    /// One colour at each vertex, blended across the triangle.
    Shaded(LinearRgb, LinearRgb, LinearRgb),
    /// A texture of the model, by its index, sampled between the three coordinates.
    Textured { texture: usize, uv1: Vec2, uv2: Vec2, uv3: Vec2 },
    /// One colour in linear light.
    Flat(LinearRgb),
    /// The three edges only.
    Wire(Srgb),
}

/// One triangle for the rasterizer.
#[derive(Clone, Copy, Debug)]
pub struct Triangle {
    pub v1: ScreenVertex,
    pub v2: ScreenVertex,
    pub v3: ScreenVertex,
    pub fill: Fill,
}

/// One line for the rasterizer.
#[derive(Clone, Copy, Debug)]
pub struct Line {
    pub v1: ScreenVertex,
    pub v2: ScreenVertex,
    pub color: Srgb,
}

impl ScreenVertex {
    /// The pixel under a point of screen space: the floors of x and y, and the depth
    /// as it is.
    pub open spec fn from_screen_spec(v: Vec3) -> ScreenVertex {
        ScreenVertex { x: v.x.floor_to_i32_spec(), y: v.y.floor_to_i32_spec(), z: v.z }
    }

    /// The pixel under a point of screen space.
    pub fn from_screen(v: Vec3) -> (r: ScreenVertex)
        ensures
            r == ScreenVertex::from_screen_spec(v),
    {
        ScreenVertex { x: v.x.floor_to_i32(), y: v.y.floor_to_i32(), z: v.z }
    }
}

impl Triangle {
    /// The triangle under three points of screen space.
    pub open spec fn from_screen_spec(s: (Vec3, Vec3, Vec3), fill: Fill) -> Triangle {
        Triangle {
            v1: ScreenVertex::from_screen_spec(s.0),
            v2: ScreenVertex::from_screen_spec(s.1),
            v3: ScreenVertex::from_screen_spec(s.2),
            fill,
        }
    }

    /// The triangle under three points of screen space.
    pub fn from_screen(s: (Vec3, Vec3, Vec3), fill: Fill) -> (r: Triangle)
        ensures
            r == Triangle::from_screen_spec(s, fill),
    {
        Triangle {
            v1: ScreenVertex::from_screen(s.0),
            v2: ScreenVertex::from_screen(s.1),
            v3: ScreenVertex::from_screen(s.2),
            fill,
        }
    }
}

/// The twelve triangles of a box, as 36 indices into its eight corners: the corners
/// run round the near face from the lowest, then round the far face.
pub open spec fn box_triangle_indices() -> Seq<int> {
    seq![
        0, 1, 2, 0, 2, 3, 5, 4, 7, 5, 7, 6, 4, 0, 3, 4, 3, 7, 1, 5, 6, 1, 6, 2, 4, 5, 1, 4, 1, 0, 3, 2, 6, 3, 6, 7,
    ]
}

/// The vertices of the twelve triangles of a box with the given corners.
pub fn box_triangles(corners: &[Vec3; 8]) -> (r: [Vec3; 36])
    ensures
        forall|k: int| 0 <= k < 36 ==> r[k] == corners[#[trigger] box_triangle_indices()[k]],
{
    let c = corners;
    [
        c[0], c[1], c[2], c[0], c[2], c[3], c[5], c[4], c[7], c[5], c[7], c[6], c[4], c[0], c[3], c[4], c[3],
        c[7], c[1], c[5], c[6], c[1], c[6], c[2], c[4], c[5], c[1], c[4], c[1], c[0], c[3], c[2], c[6], c[3],
        c[6], c[7],
    ]
}

} // verus!
