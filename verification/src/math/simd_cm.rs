//! Four by four matrices held column by column, multiplied in the order in which four
//! lanes are summed at once: the last two columns first.

use crate::math::vec::Vec4;
use vstd::prelude::*;

verus! {

/// A matrix of four columns.
#[derive(Clone, Copy, Debug)]
pub struct Mat4 {
    pub x_axis: Vec4,
    pub y_axis: Vec4,
    pub z_axis: Vec4,
    pub w_axis: Vec4,
}

impl Mat4 {
    /// The matrix times a column vector: the columns, each scaled by its component of
    /// the vector, summed from the last, `x + (y + (z + w))`.
    pub open spec fn mult_vec4_spec(self, v: Vec4) -> Vec4 {
        self.x_axis.mul_scalar_spec(v.x).add_spec(
            self.y_axis.mul_scalar_spec(v.y).add_spec(
                self.z_axis.mul_scalar_spec(v.z).add_spec(self.w_axis.mul_scalar_spec(v.w)),
            ),
        )
    }

    /// The matrix times a column vector.
    pub fn mult_vec4(&self, v: Vec4) -> (r: Vec4)
        ensures
            r == self.mult_vec4_spec(v),
    {
        self.x_axis.mul_scalar(v.x).add(
            self.y_axis.mul_scalar(v.y).add(self.z_axis.mul_scalar(v.z).add(self.w_axis.mul_scalar(v.w))),
        )
    }
}

} // verus!
