//! Four by four matrices, held row by row.

use crate::error_laws::lemma_finite_parts;
use crate::math::vec::Vec4;
use crate::single::F32;
use crate::single_laws::{
    lemma_add_respects_equal, lemma_add_zero, lemma_mul_one, lemma_mul_respects_equal, lemma_mul_zero, lemma_order,
    lemma_zero_keeps,
};
use vstd::prelude::*;
use vstd::std_specs::cmp::PartialEqSpecImpl;

verus! {

/// A matrix of four rows.
#[derive(Clone, Copy, Debug)]
pub struct Mat4 {
    pub r1: Vec4,
    pub r2: Vec4,
    pub r3: Vec4,
    pub r4: Vec4,
}

impl Mat4 {
    /// The matrix with ones on the diagonal and zeros elsewhere.
    pub open spec fn identity_spec() -> Mat4 {
        Mat4 {
            r1: Vec4 { x: F32 { bits: 0x3f80_0000 }, y: F32 { bits: 0 }, z: F32 { bits: 0 }, w: F32 { bits: 0 } },
            r2: Vec4 { x: F32 { bits: 0 }, y: F32 { bits: 0x3f80_0000 }, z: F32 { bits: 0 }, w: F32 { bits: 0 } },
            r3: Vec4 { x: F32 { bits: 0 }, y: F32 { bits: 0 }, z: F32 { bits: 0x3f80_0000 }, w: F32 { bits: 0 } },
            r4: Vec4 { x: F32 { bits: 0 }, y: F32 { bits: 0 }, z: F32 { bits: 0 }, w: F32 { bits: 0x3f80_0000 } },
        }
    }

    /// The identity matrix.
    pub fn identity() -> (r: Mat4)
        ensures
            r == Mat4::identity_spec(),
    {
        let one = F32 { bits: 0x3f80_0000 };
        let zero = F32 { bits: 0 };
        Mat4 {
            r1: Vec4 { x: one, y: zero, z: zero, w: zero },
            r2: Vec4 { x: zero, y: one, z: zero, w: zero },
            r3: Vec4 { x: zero, y: zero, z: one, w: zero },
            r4: Vec4 { x: zero, y: zero, z: zero, w: one },
        }
    }

    /// The matrix times a column vector: each component is the dot product of one row
    /// with the vector.
    pub open spec fn mult_vec4_spec(self, rhs: Vec4) -> Vec4 {
        Vec4 {
            x: self.r1.dot_spec(rhs),
            y: self.r2.dot_spec(rhs),
            z: self.r3.dot_spec(rhs),
            w: self.r4.dot_spec(rhs),
        }
    }

    /// The matrix times a column vector.
    pub fn mult_vec4(&self, rhs: Vec4) -> (r: Vec4)
        ensures
            r == self.mult_vec4_spec(rhs),
    {
        Vec4 {
            x: self.r1.dot(rhs),
            y: self.r2.dot(rhs),
            z: self.r3.dot(rhs),
            w: self.r4.dot(rhs),
        }
    }

    /// The matrix with rows and columns exchanged.
    pub open spec fn transpose_spec(self) -> Mat4 {
        Mat4 {
            r1: Vec4 { x: self.r1.x, y: self.r2.x, z: self.r3.x, w: self.r4.x },
            r2: Vec4 { x: self.r1.y, y: self.r2.y, z: self.r3.y, w: self.r4.y },
            r3: Vec4 { x: self.r1.z, y: self.r2.z, z: self.r3.z, w: self.r4.z },
            r4: Vec4 { x: self.r1.w, y: self.r2.w, z: self.r3.w, w: self.r4.w },
        }
    }

    /// The matrix with rows and columns exchanged.
    pub fn transpose(&self) -> (r: Mat4)
        ensures
            r == self.transpose_spec(),
    {
        Mat4 {
            r1: Vec4 { x: self.r1.x, y: self.r2.x, z: self.r3.x, w: self.r4.x },
            r2: Vec4 { x: self.r1.y, y: self.r2.y, z: self.r3.y, w: self.r4.y },
            r3: Vec4 { x: self.r1.z, y: self.r2.z, z: self.r3.z, w: self.r4.z },
            r4: Vec4 { x: self.r1.w, y: self.r2.w, z: self.r3.w, w: self.r4.w },
        }
    }

    /// One row of a product: the dot products of `row` with the columns of `rhs`, which
    /// are the rows of its transpose `t`.
    pub open spec fn row_times(row: Vec4, t: Mat4) -> Vec4 {
        Vec4 {
            x: row.dot_spec(t.r1),
            y: row.dot_spec(t.r2),
            z: row.dot_spec(t.r3),
            w: row.dot_spec(t.r4),
        }
    }

    /// The product `self * rhs`: entry `(i, j)` is the dot product of row `i` of `self`
    /// with column `j` of `rhs`.
    pub open spec fn mult_mat4_spec(self, rhs: Mat4) -> Mat4 {
        let t = rhs.transpose_spec();
        Mat4 {
            r1: Mat4::row_times(self.r1, t),
            r2: Mat4::row_times(self.r2, t),
            r3: Mat4::row_times(self.r3, t),
            r4: Mat4::row_times(self.r4, t),
        }
    }

    /// The product `self * rhs`.
    pub fn mult_mat4(&self, rhs: &Mat4) -> (r: Mat4)
        ensures
            r == self.mult_mat4_spec(*rhs),
    {
        let t = rhs.transpose();
        Mat4 {
            r1: Vec4 { x: self.r1.dot(t.r1), y: self.r1.dot(t.r2), z: self.r1.dot(t.r3), w: self.r1.dot(t.r4) },
            r2: Vec4 { x: self.r2.dot(t.r1), y: self.r2.dot(t.r2), z: self.r2.dot(t.r3), w: self.r2.dot(t.r4) },
            r3: Vec4 { x: self.r3.dot(t.r1), y: self.r3.dot(t.r2), z: self.r3.dot(t.r3), w: self.r3.dot(t.r4) },
            r4: Vec4 { x: self.r4.dot(t.r1), y: self.r4.dot(t.r2), z: self.r4.dot(t.r3), w: self.r4.dot(t.r4) },
        }
    }

    /// Equality of matrices: every pair of entries holds equal numbers.
    pub open spec fn equal(self, rhs: Mat4) -> bool {
        self.r1.equal(rhs.r1) && self.r2.equal(rhs.r2) && self.r3.equal(rhs.r3) && self.r4.equal(
            rhs.r4,
        )
    }
}

impl PartialEq for Mat4 {
    fn eq(&self, other: &Mat4) -> (r: bool) {
        self.r1 == other.r1 && self.r2 == other.r2 && self.r3 == other.r3 && self.r4 == other.r4
    }
}

impl PartialEqSpecImpl for Mat4 {
    open spec fn obeys_eq_spec() -> bool {
        true
    }

    open spec fn eq_spec(&self, other: &Mat4) -> bool {
        self.equal(*other)
    }
}

impl Default for Mat4 {
    fn default() -> (r: Mat4)
        ensures
            r == Mat4::identity_spec(),
    {
        Mat4::identity()
    }
}

/// Whether all four components are finite numbers.
pub open spec fn all_finite(v: Vec4) -> bool {
    v.x.finite() && v.y.finite() && v.z.finite() && v.w.finite()
}

/// The dot product of a vector of finite numbers with a unit axis is the component along
/// that axis.
pub proof fn lemma_dot_with_axis(v: Vec4)
    requires
        all_finite(v),
    ensures
        Mat4::identity_spec().r1.dot_spec(v).equal(v.x),
        Mat4::identity_spec().r2.dot_spec(v).equal(v.y),
        Mat4::identity_spec().r3.dot_spec(v).equal(v.z),
        Mat4::identity_spec().r4.dot_spec(v).equal(v.w),
        v.dot_spec(Mat4::identity_spec().r1).equal(v.x),
        v.dot_spec(Mat4::identity_spec().r2).equal(v.y),
        v.dot_spec(Mat4::identity_spec().r3).equal(v.z),
        v.dot_spec(Mat4::identity_spec().r4).equal(v.w),
{
    let one = F32 { bits: 0x3f80_0000 };
    let zero = F32 { bits: 0 };
    lemma_mul_one(v.x);
    lemma_mul_one(v.y);
    lemma_mul_one(v.z);
    lemma_mul_one(v.w);
    lemma_mul_zero(v.x, zero);
    lemma_mul_zero(v.y, zero);
    lemma_mul_zero(v.z, zero);
    lemma_mul_zero(v.w, zero);
    // the axis on the left
    let a1 = one.mul_spec(v.x).add_spec(zero.mul_spec(v.y));
    lemma_zero_keeps(one.mul_spec(v.x), v.x, zero.mul_spec(v.y));
    lemma_zero_keeps(a1, v.x, zero.mul_spec(v.z));
    lemma_zero_keeps(a1.add_spec(zero.mul_spec(v.z)), v.x, zero.mul_spec(v.w));
    let b1 = zero.mul_spec(v.x).add_spec(one.mul_spec(v.y));
    lemma_zero_keeps(one.mul_spec(v.y), v.y, zero.mul_spec(v.x));
    lemma_zero_keeps(b1, v.y, zero.mul_spec(v.z));
    lemma_zero_keeps(b1.add_spec(zero.mul_spec(v.z)), v.y, zero.mul_spec(v.w));
    let c0 = zero.mul_spec(v.x).add_spec(zero.mul_spec(v.y));
    lemma_add_zero(zero.mul_spec(v.x), zero.mul_spec(v.y));
    lemma_zero_keeps(one.mul_spec(v.z), v.z, c0);
    let c1 = c0.add_spec(one.mul_spec(v.z));
    lemma_zero_keeps(c1, v.z, zero.mul_spec(v.w));
    let d0 = c0.add_spec(zero.mul_spec(v.z));
    lemma_add_zero(c0, zero.mul_spec(v.z));
    lemma_zero_keeps(one.mul_spec(v.w), v.w, d0);
    // the axis on the right
    let e1 = v.x.mul_spec(one).add_spec(v.y.mul_spec(zero));
    lemma_zero_keeps(v.x.mul_spec(one), v.x, v.y.mul_spec(zero));
    lemma_zero_keeps(e1, v.x, v.z.mul_spec(zero));
    lemma_zero_keeps(e1.add_spec(v.z.mul_spec(zero)), v.x, v.w.mul_spec(zero));
    let f1 = v.x.mul_spec(zero).add_spec(v.y.mul_spec(one));
    lemma_zero_keeps(v.y.mul_spec(one), v.y, v.x.mul_spec(zero));
    lemma_zero_keeps(f1, v.y, v.z.mul_spec(zero));
    lemma_zero_keeps(f1.add_spec(v.z.mul_spec(zero)), v.y, v.w.mul_spec(zero));
    let g0 = v.x.mul_spec(zero).add_spec(v.y.mul_spec(zero));
    lemma_add_zero(v.x.mul_spec(zero), v.y.mul_spec(zero));
    lemma_zero_keeps(v.z.mul_spec(one), v.z, g0);
    let g1 = g0.add_spec(v.z.mul_spec(one));
    lemma_zero_keeps(g1, v.z, v.w.mul_spec(zero));
    let h0 = g0.add_spec(v.z.mul_spec(zero));
    lemma_add_zero(g0, v.z.mul_spec(zero));
    lemma_zero_keeps(v.w.mul_spec(one), v.w, h0);
}

/// The identity matrix leaves a vector of finite numbers unchanged: each component of the
/// product equals the component of the vector.
pub proof fn lemma_identity_mult_vec4(v: Vec4)
    requires
        all_finite(v),
    ensures
        Mat4::identity_spec().mult_vec4_spec(v).equal(v),
{
    lemma_dot_with_axis(v);
}

/// The identity matrix is neutral in a product, on either side, for a matrix of finite
/// numbers.
pub proof fn lemma_identity_mult_mat4(m: Mat4)
    requires
        all_finite(m.r1),
        all_finite(m.r2),
        all_finite(m.r3),
        all_finite(m.r4),
    ensures
        Mat4::identity_spec().mult_mat4_spec(m).equal(m),
        m.mult_mat4_spec(Mat4::identity_spec()).equal(m),
{
    let t = m.transpose_spec();
    lemma_dot_with_axis(t.r1);
    lemma_dot_with_axis(t.r2);
    lemma_dot_with_axis(t.r3);
    lemma_dot_with_axis(t.r4);
    lemma_dot_with_axis(m.r1);
    lemma_dot_with_axis(m.r2);
    lemma_dot_with_axis(m.r3);
    lemma_dot_with_axis(m.r4);
    assert(Mat4::identity_spec().transpose_spec() == Mat4::identity_spec());
}

/// Transposing twice gives the matrix back.
pub proof fn lemma_transpose_twice(m: Mat4)
    ensures
        m.transpose_spec().transpose_spec() == m,
{
}

/// A dot product does not tell apart rows that are equal: where every number of one row
/// equals that of another, both of finite numbers, and the product of the second with a
/// vector of finite numbers is finite, the two products are equal.
pub proof fn lemma_dot_respects_equal(a: Vec4, a2: Vec4, b: Vec4)
    requires
        a.equal(a2),
        all_finite(a2),
        all_finite(b),
        a2.dot_spec(b).finite(),
    ensures
        a.dot_spec(b).equal(a2.dot_spec(b)),
{
    let first = a2.x.mul_spec(b.x).add_spec(a2.y.mul_spec(b.y));
    let second = first.add_spec(a2.z.mul_spec(b.z));
    lemma_finite_parts(second, a2.w.mul_spec(b.w));
    lemma_finite_parts(first, a2.z.mul_spec(b.z));
    lemma_order(b.x, b.x, b.x);
    lemma_order(b.y, b.y, b.y);
    lemma_order(b.z, b.z, b.z);
    lemma_order(b.w, b.w, b.w);
    lemma_mul_respects_equal(a.x, a2.x, b.x, b.x);
    lemma_mul_respects_equal(a.y, a2.y, b.y, b.y);
    lemma_mul_respects_equal(a.z, a2.z, b.z, b.z);
    lemma_mul_respects_equal(a.w, a2.w, b.w, b.w);
    lemma_add_respects_equal(a.x.mul_spec(b.x), a2.x.mul_spec(b.x), a.y.mul_spec(b.y), a2.y.mul_spec(b.y));
    lemma_add_respects_equal(
        a.x.mul_spec(b.x).add_spec(a.y.mul_spec(b.y)),
        first,
        a.z.mul_spec(b.z),
        a2.z.mul_spec(b.z),
    );
    lemma_add_respects_equal(
        a.x.mul_spec(b.x).add_spec(a.y.mul_spec(b.y)).add_spec(a.z.mul_spec(b.z)),
        second,
        a.w.mul_spec(b.w),
        a2.w.mul_spec(b.w),
    );
}

} // verus!
