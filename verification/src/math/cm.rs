//! Four by four matrices, held column by column.

use crate::math::mat;
use crate::math::vec::Vec4;
use vstd::prelude::*;

verus! {

/// A matrix of four columns.
#[derive(Clone, Copy, Debug)]
pub struct Mat4 {
    pub c1: Vec4,
    pub c2: Vec4,
    pub c3: Vec4,
    pub c4: Vec4,
}

impl Mat4 {
    /// The matrix times a column vector: the columns, each scaled by its component of
    /// the vector, summed from the first.
    pub open spec fn mult_vec4_spec(self, rhs: Vec4) -> Vec4 {
        self.c1.mul_scalar_spec(rhs.x).add_spec(self.c2.mul_scalar_spec(rhs.y)).add_spec(
            self.c3.mul_scalar_spec(rhs.z),
        ).add_spec(self.c4.mul_scalar_spec(rhs.w))
    }

    /// The matrix times a column vector.
    pub fn mult_vec4(&self, rhs: Vec4) -> (r: Vec4)
        ensures
            r == self.mult_vec4_spec(rhs),
    {
        self.c1.mul_scalar(rhs.x).add(self.c2.mul_scalar(rhs.y)).add(self.c3.mul_scalar(rhs.z)).add(
            self.c4.mul_scalar(rhs.w),
        )
    }

    /// The columns of a matrix held by rows.
    pub open spec fn from_rows_spec(m: mat::Mat4) -> Mat4 {
        let t = m.transpose_spec();
        Mat4 { c1: t.r1, c2: t.r2, c3: t.r3, c4: t.r4 }
    }

    /// The columns of a matrix held by rows.
    pub fn from_rows(m: &mat::Mat4) -> (r: Mat4)
        ensures
            r == Mat4::from_rows_spec(*m),
    {
        let t = m.transpose();
        Mat4 { c1: t.r1, c2: t.r2, c3: t.r3, c4: t.r4 }
    }
}

/// Both layouts multiply alike: a matrix held by rows and the same matrix held by columns
/// take a vector to the same bits.
pub proof fn lemma_layouts_agree(m: mat::Mat4, v: Vec4)
    ensures
        Mat4::from_rows_spec(m).mult_vec4_spec(v) == m.mult_vec4_spec(v),
{
}

} // verus!
