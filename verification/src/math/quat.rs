//! Quaternions for rotation.

use crate::math::angle::Angle;
use crate::math::mat::Mat4;
use crate::math::vec::Vec4;
use crate::math::mat::all_finite;
use crate::single::{F32, HALF_BITS};
use crate::single_laws::{lemma_mul_one, lemma_mul_zero, lemma_zero_keeps};
use vstd::prelude::*;
use vstd::std_specs::cmp::PartialEqSpecImpl;

verus! {

/// A quaternion `(x, y, z, w)` with `w` the scalar part.
#[derive(Clone, Copy, Debug)]
pub struct Quat(pub Vec4);

impl Quat {
    /// The quaternion of no rotation, `(0, 0, 0, 1)`.
    pub open spec fn identity_spec() -> Quat {
        Quat(Vec4 { x: F32 { bits: 0 }, y: F32 { bits: 0 }, z: F32 { bits: 0 }, w: F32 { bits: 0x3f80_0000 } })
    }

    /// The quaternion of no rotation.
    pub fn identity() -> (r: Quat)
        ensures
            r == Quat::identity_spec(),
    {
        Quat(Vec4 { x: F32 { bits: 0 }, y: F32 { bits: 0 }, z: F32 { bits: 0 }, w: F32 { bits: 0x3f80_0000 } })
    }

    /// Half an angle: the angle times one half. The caller takes the sine and the cosine
    /// of this for the rotations below.
    pub open spec fn half_angle_spec(angle: F32) -> F32 {
        angle.mul_spec(F32 { bits: HALF_BITS })
    }

    /// Half an angle.
    pub fn half_angle(angle: F32) -> (r: F32)
        ensures
            r == Quat::half_angle_spec(angle),
    {
        angle.mul(F32 { bits: HALF_BITS })
    }

    /// The rotation by `angle` about the x axis, `(sin, 0, 0, cos)`, from the sine and
    /// cosine of half the angle.
    pub fn from_rotation_x(angle: F32, half: Angle) -> (r: Quat)
        requires
            half.radians == Quat::half_angle_spec(angle),
        ensures
            r == Quat(Vec4 { x: half.sin, y: F32 { bits: 0 }, z: F32 { bits: 0 }, w: half.cos }),
    {
        Quat(Vec4 { x: half.sin, y: F32 { bits: 0 }, z: F32 { bits: 0 }, w: half.cos })
    }

    /// The rotation by `angle` about the y axis, `(0, sin, 0, cos)`, from the sine and
    /// cosine of half the angle.
    pub fn from_rotation_y(angle: F32, half: Angle) -> (r: Quat)
        requires
            half.radians == Quat::half_angle_spec(angle),
        ensures
            r == Quat(Vec4 { x: F32 { bits: 0 }, y: half.sin, z: F32 { bits: 0 }, w: half.cos }),
    {
        Quat(Vec4 { x: F32 { bits: 0 }, y: half.sin, z: F32 { bits: 0 }, w: half.cos })
    }

    /// The rotation by `angle` about the z axis, `(0, 0, sin, cos)`, from the sine and
    /// cosine of half the angle.
    pub fn from_rotation_z(angle: F32, half: Angle) -> (r: Quat)
        requires
            half.radians == Quat::half_angle_spec(angle),
        ensures
            r == Quat(Vec4 { x: F32 { bits: 0 }, y: F32 { bits: 0 }, z: half.sin, w: half.cos }),
    {
        Quat(Vec4 { x: F32 { bits: 0 }, y: F32 { bits: 0 }, z: half.sin, w: half.cos })
    }

    /// The Hamilton product `self * rhs`.
    pub open spec fn mul_quat_spec(self, rhs: Quat) -> Quat {
        let a = self.0;
        let b = rhs.0;
        Quat(
            Vec4 {
                x: a.w.mul_spec(b.x).add_spec(a.x.mul_spec(b.w)).add_spec(a.y.mul_spec(b.z)).sub_spec(
                    a.z.mul_spec(b.y),
                ),
                y: a.w.mul_spec(b.y).add_spec(a.y.mul_spec(b.w)).add_spec(a.z.mul_spec(b.x)).sub_spec(
                    a.x.mul_spec(b.z),
                ),
                z: a.w.mul_spec(b.z).add_spec(a.z.mul_spec(b.w)).add_spec(a.x.mul_spec(b.y)).sub_spec(
                    a.y.mul_spec(b.x),
                ),
                w: a.w.mul_spec(b.w).sub_spec(a.x.mul_spec(b.x)).sub_spec(a.y.mul_spec(b.y)).sub_spec(
                    a.z.mul_spec(b.z),
                ),
            },
        )
    }

    /// The Hamilton product `self * rhs`.
    pub fn mul_quat(self, rhs: Quat) -> (r: Quat)
        ensures
            r == self.mul_quat_spec(rhs),
    {
        let a = self.0;
        let b = rhs.0;
        Quat(
            Vec4 {
                x: a.w.mul(b.x).add(a.x.mul(b.w)).add(a.y.mul(b.z)).sub(a.z.mul(b.y)),
                y: a.w.mul(b.y).add(a.y.mul(b.w)).add(a.z.mul(b.x)).sub(a.x.mul(b.z)),
                z: a.w.mul(b.z).add(a.z.mul(b.w)).add(a.x.mul(b.y)).sub(a.y.mul(b.x)),
                w: a.w.mul(b.w).sub(a.x.mul(b.x)).sub(a.y.mul(b.y)).sub(a.z.mul(b.z)),
            },
        )
    }

    /// The scale of the cross terms: `2 / |q|^2`, or 0 where the squared length is not
    /// above zero.
    pub open spec fn matrix_scale_spec(self) -> F32 {
        let nq = self.0.length_squared_spec();
        if (F32 { bits: 0 }).lt_spec(nq) {
            (F32 { bits: 0x4000_0000 }).div_spec(nq)
        } else {
            F32 { bits: 0 }
        }
    }

    /// The rotation matrix of the quaternion: with `s` the scale above,
    /// `xs = x s`, `wx = w xs`, `xx = x xs` and so on, the rows are
    /// `(1 - (yy + zz), xy - wz, xz + wy, 0)`, `(xy + wz, 1 - (xx + zz), yz - wx, 0)`,
    /// `(xz - wy, yz + wx, 1 - (xx + yy), 0)` and `(0, 0, 0, 1)`.
    pub open spec fn compute_mat4_spec(self) -> Mat4 {
        let q = self.0;
        let s = self.matrix_scale_spec();
        let xs = q.x.mul_spec(s);
        let ys = q.y.mul_spec(s);
        let zs = q.z.mul_spec(s);
        let wx = q.w.mul_spec(xs);
        let wy = q.w.mul_spec(ys);
        let wz = q.w.mul_spec(zs);
        let xx = q.x.mul_spec(xs);
        let xy = q.x.mul_spec(ys);
        let xz = q.x.mul_spec(zs);
        let yy = q.y.mul_spec(ys);
        let yz = q.y.mul_spec(zs);
        let zz = q.z.mul_spec(zs);
        let one = F32 { bits: 0x3f80_0000 };
        let zero = F32 { bits: 0 };
        Mat4 {
            r1: Vec4 { x: one.sub_spec(yy.add_spec(zz)), y: xy.sub_spec(wz), z: xz.add_spec(wy), w: zero },
            r2: Vec4 { x: xy.add_spec(wz), y: one.sub_spec(xx.add_spec(zz)), z: yz.sub_spec(wx), w: zero },
            r3: Vec4 { x: xz.sub_spec(wy), y: yz.add_spec(wx), z: one.sub_spec(xx.add_spec(yy)), w: zero },
            r4: Vec4 { x: zero, y: zero, z: zero, w: one },
        }
    }

    /// The rotation matrix of the quaternion.
    pub fn compute_mat4(self) -> (r: Mat4)
        ensures
            r == self.compute_mat4_spec(),
    {
        let q = self.0;
        let one = F32 { bits: 0x3f80_0000 };
        let zero = F32 { bits: 0 };
        let nq = q.length_squared();
        let s = if nq.gt(zero) {
            (F32 { bits: 0x4000_0000 }).div(nq)
        } else {
            zero
        };
        let xs = q.x.mul(s);
        let ys = q.y.mul(s);
        let zs = q.z.mul(s);
        let wx = q.w.mul(xs);
        let wy = q.w.mul(ys);
        let wz = q.w.mul(zs);
        let xx = q.x.mul(xs);
        let xy = q.x.mul(ys);
        let xz = q.x.mul(zs);
        let yy = q.y.mul(ys);
        let yz = q.y.mul(zs);
        let zz = q.z.mul(zs);
        Mat4 {
            r1: Vec4 { x: one.sub(yy.add(zz)), y: xy.sub(wz), z: xz.add(wy), w: zero },
            r2: Vec4 { x: xy.add(wz), y: one.sub(xx.add(zz)), z: yz.sub(wx), w: zero },
            r3: Vec4 { x: xz.sub(wy), y: yz.add(wx), z: one.sub(xx.add(yy)), w: zero },
            r4: Vec4 { x: zero, y: zero, z: zero, w: one },
        }
    }

    /// Equality of quaternions: every pair of components holds equal numbers.
    pub open spec fn equal(self, rhs: Quat) -> bool {
        self.0.equal(rhs.0)
    }
}

/// The identity is neutral in the Hamilton product, on either side, for a quaternion of
/// finite numbers: each component of the product equals the component of `q`.
pub proof fn lemma_identity_mul_quat(q: Quat)
    requires
        all_finite(q.0),
    ensures
        Quat::identity_spec().mul_quat_spec(q).equal(q),
        q.mul_quat_spec(Quat::identity_spec()).equal(q),
{
    let one = F32 { bits: 0x3f80_0000 };
    let zero = F32 { bits: 0 };
    let v = q.0;
    lemma_mul_one(v.x);
    lemma_mul_one(v.y);
    lemma_mul_one(v.z);
    lemma_mul_one(v.w);
    lemma_mul_zero(v.x, zero);
    lemma_mul_zero(v.y, zero);
    lemma_mul_zero(v.z, zero);
    lemma_mul_zero(v.w, zero);
    // identity * q
    lemma_left_component(one.mul_spec(v.x), v.x, zero.mul_spec(v.w), zero.mul_spec(v.z), zero.mul_spec(v.y));
    lemma_left_component(one.mul_spec(v.y), v.y, zero.mul_spec(v.w), zero.mul_spec(v.x), zero.mul_spec(v.z));
    lemma_left_component(one.mul_spec(v.z), v.z, zero.mul_spec(v.w), zero.mul_spec(v.y), zero.mul_spec(v.x));
    lemma_zero_keeps(one.mul_spec(v.w), v.w, zero.mul_spec(v.x));
    lemma_zero_keeps(one.mul_spec(v.w).sub_spec(zero.mul_spec(v.x)), v.w, zero.mul_spec(v.y));
    lemma_zero_keeps(
        one.mul_spec(v.w).sub_spec(zero.mul_spec(v.x)).sub_spec(zero.mul_spec(v.y)),
        v.w,
        zero.mul_spec(v.z),
    );
    // q * identity
    lemma_right_component(v.w.mul_spec(zero), v.x.mul_spec(one), v.x, v.y.mul_spec(zero), v.z.mul_spec(zero));
    lemma_right_component(v.w.mul_spec(zero), v.y.mul_spec(one), v.y, v.z.mul_spec(zero), v.x.mul_spec(zero));
    lemma_right_component(v.w.mul_spec(zero), v.z.mul_spec(one), v.z, v.x.mul_spec(zero), v.y.mul_spec(zero));
    lemma_zero_keeps(v.w.mul_spec(one), v.w, v.x.mul_spec(zero));
    lemma_zero_keeps(v.w.mul_spec(one).sub_spec(v.x.mul_spec(zero)), v.w, v.y.mul_spec(zero));
    lemma_zero_keeps(
        v.w.mul_spec(one).sub_spec(v.x.mul_spec(zero)).sub_spec(v.y.mul_spec(zero)),
        v.w,
        v.z.mul_spec(zero),
    );
}

/// `a + z1 + z2 - z3` equals `x` where `a` does and the rest are zeros.
proof fn lemma_left_component(a: F32, x: F32, z1: F32, z2: F32, z3: F32)
    requires
        a.equal(x),
        z1.zero(),
        z2.zero(),
        z3.zero(),
    ensures
        a.add_spec(z1).add_spec(z2).sub_spec(z3).equal(x),
{
    lemma_zero_keeps(a, x, z1);
    lemma_zero_keeps(a.add_spec(z1), x, z2);
    lemma_zero_keeps(a.add_spec(z1).add_spec(z2), x, z3);
}

/// `z0 + a + z2 - z3` equals `x` where `a` does and the rest are zeros.
proof fn lemma_right_component(z0: F32, a: F32, x: F32, z2: F32, z3: F32)
    requires
        a.equal(x),
        z0.zero(),
        z2.zero(),
        z3.zero(),
    ensures
        z0.add_spec(a).add_spec(z2).sub_spec(z3).equal(x),
{
    lemma_zero_keeps(a, x, z0);
    lemma_zero_keeps(z0.add_spec(a), x, z2);
    lemma_zero_keeps(z0.add_spec(a).add_spec(z2), x, z3);
}

impl PartialEq for Quat {
    fn eq(&self, other: &Quat) -> (r: bool) {
        self.0 == other.0
    }
}

impl PartialEqSpecImpl for Quat {
    open spec fn obeys_eq_spec() -> bool {
        true
    }

    open spec fn eq_spec(&self, other: &Quat) -> bool {
        self.equal(*other)
    }
}

impl core::ops::Deref for Quat {
    type Target = Vec4;

    /// The four components.
    fn deref(&self) -> (r: &Vec4)
        ensures
            *r == self.0,
    {
        &self.0
    }
}

impl core::ops::DerefMut for Quat {
    /// The four components, to change them.
    fn deref_mut(&mut self) -> (r: &mut Vec4)
        ensures
            *r == old(self).0,
            final(self).0 == *final(r),
    {
        &mut self.0
    }
}

impl Default for Quat {
    fn default() -> (r: Quat)
        ensures
            r == Quat::identity_spec(),
    {
        Quat::identity()
    }
}

} // verus!
