//! Vectors of two, three and four binary32 components, and their binary64 companions.
//!
//! Every operation works component by component in binary32 arithmetic, in the order in
//! which its contract writes it: sums run from the first component to the last.

use crate::double::F64;
use crate::math::angle::{Angle, DAngle};
use crate::single::F32;
use crate::single_laws::{lemma_add_commutes, lemma_mul_commutes};
use vstd::prelude::*;
use vstd::std_specs::cmp::PartialEqSpecImpl;

verus! {
/// A vector of four binary32 components.
#[derive(Clone, Copy, Debug)]
pub struct Vec4 {
    pub x: F32,
    pub y: F32,
    pub z: F32,
    pub w: F32,
}

impl Vec4 {
    /// The vector of zeros.
    pub open spec fn zero_spec() -> Vec4 {
        Vec4 { x: F32 { bits: 0 }, y: F32 { bits: 0 }, z: F32 { bits: 0 }, w: F32 { bits: 0 } }
    }

    /// The vector of zeros.
    pub fn zero() -> (r: Vec4)
        ensures
            r == Vec4::zero_spec(),
    {
        Vec4 { x: F32 { bits: 0 }, y: F32 { bits: 0 }, z: F32 { bits: 0 }, w: F32 { bits: 0 } }
    }

    /// The vector with the given components.
    pub fn new(x: F32, y: F32, z: F32, w: F32) -> (r: Vec4)
        ensures
            r == (Vec4 { x, y, z, w }),
    {
        Vec4 { x, y, z, w }
    }

    /// The vector with every component `v`.
    pub fn splat(v: F32) -> (r: Vec4)
        ensures
            r == (Vec4 { x: v, y: v, z: v, w: v }),
    {
        Vec4 { x: v, y: v, z: v, w: v }
    }

    /// The vector along the x axis: `x` there and zero elsewhere.
    pub fn x(x: F32) -> (r: Vec4)
        ensures
            r == (Vec4 { x, y: F32 { bits: 0 }, z: F32 { bits: 0 }, w: F32 { bits: 0 } }),
    {
        Vec4 { x, y: F32 { bits: 0 }, z: F32 { bits: 0 }, w: F32 { bits: 0 } }
    }

    /// The vector along the y axis: `y` there and zero elsewhere.
    pub fn y(y: F32) -> (r: Vec4)
        ensures
            r == (Vec4 { x: F32 { bits: 0 }, y, z: F32 { bits: 0 }, w: F32 { bits: 0 } }),
    {
        Vec4 { x: F32 { bits: 0 }, y, z: F32 { bits: 0 }, w: F32 { bits: 0 } }
    }

    /// The vector along the z axis: `z` there and zero elsewhere.
    pub fn z(z: F32) -> (r: Vec4)
        ensures
            r == (Vec4 { x: F32 { bits: 0 }, y: F32 { bits: 0 }, z, w: F32 { bits: 0 } }),
    {
        Vec4 { x: F32 { bits: 0 }, y: F32 { bits: 0 }, z, w: F32 { bits: 0 } }
    }

    /// The vector along the w axis: `w` there and zero elsewhere.
    pub fn w(w: F32) -> (r: Vec4)
        ensures
            r == (Vec4 { x: F32 { bits: 0 }, y: F32 { bits: 0 }, z: F32 { bits: 0 }, w }),
    {
        Vec4 { x: F32 { bits: 0 }, y: F32 { bits: 0 }, z: F32 { bits: 0 }, w }
    }

    /// The sum, component by component.
    pub open spec fn add_spec(self, rhs: Vec4) -> Vec4 {
        Vec4 {
            x: self.x.add_spec(rhs.x),
            y: self.y.add_spec(rhs.y),
            z: self.z.add_spec(rhs.z),
            w: self.w.add_spec(rhs.w),
        }
    }

    /// The sum, component by component.
    pub fn add(self, rhs: Vec4) -> (r: Vec4)
        ensures
            r == self.add_spec(rhs),
    {
        Vec4 {
            x: self.x.add(rhs.x),
            y: self.y.add(rhs.y),
            z: self.z.add(rhs.z),
            w: self.w.add(rhs.w),
        }
    }

    /// The difference, component by component.
    pub open spec fn sub_spec(self, rhs: Vec4) -> Vec4 {
        Vec4 {
            x: self.x.sub_spec(rhs.x),
            y: self.y.sub_spec(rhs.y),
            z: self.z.sub_spec(rhs.z),
            w: self.w.sub_spec(rhs.w),
        }
    }

    /// The difference, component by component.
    pub fn sub(self, rhs: Vec4) -> (r: Vec4)
        ensures
            r == self.sub_spec(rhs),
    {
        Vec4 {
            x: self.x.sub(rhs.x),
            y: self.y.sub(rhs.y),
            z: self.z.sub(rhs.z),
            w: self.w.sub(rhs.w),
        }
    }

    /// The product, component by component.
    pub open spec fn mul_spec(self, rhs: Vec4) -> Vec4 {
        Vec4 {
            x: self.x.mul_spec(rhs.x),
            y: self.y.mul_spec(rhs.y),
            z: self.z.mul_spec(rhs.z),
            w: self.w.mul_spec(rhs.w),
        }
    }

    /// The product, component by component.
    pub fn mul(self, rhs: Vec4) -> (r: Vec4)
        ensures
            r == self.mul_spec(rhs),
    {
        Vec4 {
            x: self.x.mul(rhs.x),
            y: self.y.mul(rhs.y),
            z: self.z.mul(rhs.z),
            w: self.w.mul(rhs.w),
        }
    }

    /// The quotient, component by component: a zero divisor gives an infinity or a NaN there.
    pub open spec fn div_spec(self, rhs: Vec4) -> Vec4 {
        Vec4 {
            x: self.x.div_spec(rhs.x),
            y: self.y.div_spec(rhs.y),
            z: self.z.div_spec(rhs.z),
            w: self.w.div_spec(rhs.w),
        }
    }

    /// The quotient, component by component: a zero divisor gives an infinity or a NaN there.
    pub fn div(self, rhs: Vec4) -> (r: Vec4)
        ensures
            r == self.div_spec(rhs),
    {
        Vec4 {
            x: self.x.div(rhs.x),
            y: self.y.div(rhs.y),
            z: self.z.div(rhs.z),
            w: self.w.div(rhs.w),
        }
    }

    /// Each component plus `rhs`.
    pub open spec fn add_scalar_spec(self, rhs: F32) -> Vec4 {
        Vec4 {
            x: self.x.add_spec(rhs),
            y: self.y.add_spec(rhs),
            z: self.z.add_spec(rhs),
            w: self.w.add_spec(rhs),
        }
    }

    /// Each component plus `rhs`.
    pub fn add_scalar(self, rhs: F32) -> (r: Vec4)
        ensures
            r == self.add_scalar_spec(rhs),
    {
        Vec4 { x: self.x.add(rhs), y: self.y.add(rhs), z: self.z.add(rhs), w: self.w.add(rhs) }
    }

    /// Each component minus `rhs`.
    pub open spec fn sub_scalar_spec(self, rhs: F32) -> Vec4 {
        Vec4 {
            x: self.x.sub_spec(rhs),
            y: self.y.sub_spec(rhs),
            z: self.z.sub_spec(rhs),
            w: self.w.sub_spec(rhs),
        }
    }

    /// Each component minus `rhs`.
    pub fn sub_scalar(self, rhs: F32) -> (r: Vec4)
        ensures
            r == self.sub_scalar_spec(rhs),
    {
        Vec4 { x: self.x.sub(rhs), y: self.y.sub(rhs), z: self.z.sub(rhs), w: self.w.sub(rhs) }
    }

    /// Each component times `rhs`.
    pub open spec fn mul_scalar_spec(self, rhs: F32) -> Vec4 {
        Vec4 {
            x: self.x.mul_spec(rhs),
            y: self.y.mul_spec(rhs),
            z: self.z.mul_spec(rhs),
            w: self.w.mul_spec(rhs),
        }
    }

    /// Each component times `rhs`.
    pub fn mul_scalar(self, rhs: F32) -> (r: Vec4)
        ensures
            r == self.mul_scalar_spec(rhs),
    {
        Vec4 { x: self.x.mul(rhs), y: self.y.mul(rhs), z: self.z.mul(rhs), w: self.w.mul(rhs) }
    }

    /// Each component divided by `rhs`.
    pub open spec fn div_scalar_spec(self, rhs: F32) -> Vec4 {
        Vec4 {
            x: self.x.div_spec(rhs),
            y: self.y.div_spec(rhs),
            z: self.z.div_spec(rhs),
            w: self.w.div_spec(rhs),
        }
    }

    /// Each component divided by `rhs`.
    pub fn div_scalar(self, rhs: F32) -> (r: Vec4)
        ensures
            r == self.div_scalar_spec(rhs),
    {
        Vec4 { x: self.x.div(rhs), y: self.y.div(rhs), z: self.z.div(rhs), w: self.w.div(rhs) }
    }

    /// The dot product: the products of the components, summed from the first.
    pub open spec fn dot_spec(self, rhs: Vec4) -> F32 {
        self.x.mul_spec(rhs.x).add_spec(self.y.mul_spec(rhs.y)).add_spec(self.z.mul_spec(rhs.z)).add_spec(self.w.mul_spec(rhs.w))
    }

    /// The dot product.
    pub fn dot(self, rhs: Vec4) -> (r: F32)
        ensures
            r == self.dot_spec(rhs),
    {
        self.x.mul(rhs.x).add(self.y.mul(rhs.y)).add(self.z.mul(rhs.z)).add(self.w.mul(rhs.w))
    }

    /// The squared length: the dot product with itself.
    pub open spec fn length_squared_spec(self) -> F32 {
        self.dot_spec(self)
    }

    /// The squared length.
    pub fn length_squared(self) -> (r: F32)
        ensures
            r == self.length_squared_spec(),
    {
        self.dot(self)
    }

    /// The length: the square root of the squared length.
    pub open spec fn length_spec(self) -> F32 {
        self.length_squared_spec().sqrt_spec()
    }

    /// The length.
    pub fn length(self) -> (r: F32)
        ensures
            r == self.length_spec(),
    {
        self.length_squared().sqrt()
    }

    /// The components in order.
    pub fn to_array(self) -> (r: [F32; 4])
        ensures
            r[0] == self.x,
            r[1] == self.y,
            r[2] == self.z,
            r[3] == self.w,
    {
        [self.x, self.y, self.z, self.w]
    }

    /// The vector without its last component.
    pub fn reduce(self) -> (r: Vec3)
        ensures
            r == (Vec3 { x: self.x, y: self.y, z: self.z }),
    {
        Vec3 { x: self.x, y: self.y, z: self.z }
    }

    /// Whether no component is a NaN.
    pub open spec fn no_nan(self) -> bool {
        !self.x.nan() && !self.y.nan() && !self.z.nan() && !self.w.nan()
    }

    /// Equality of vectors: every pair of components holds equal numbers.
    pub open spec fn equal(self, rhs: Vec4) -> bool {
        self.x.equal(rhs.x) && self.y.equal(rhs.y) && self.z.equal(rhs.z) && self.w.equal(rhs.w)
    }
}

impl PartialEq for Vec4 {
    fn eq(&self, other: &Vec4) -> (r: bool) {
        self.x == other.x && self.y == other.y && self.z == other.z && self.w == other.w
    }
}

impl PartialEqSpecImpl for Vec4 {
    open spec fn obeys_eq_spec() -> bool {
        true
    }

    open spec fn eq_spec(&self, other: &Vec4) -> bool {
        self.equal(*other)
    }
}

impl Default for Vec4 {
    fn default() -> (r: Vec4)
        ensures
            r == Vec4::zero_spec(),
    {
        Vec4::zero()
    }
}

impl core::ops::Add for Vec4 {
    type Output = Vec4;

    fn add(self, rhs: Vec4) -> (r: Vec4) {
        Vec4::add(self, rhs)
    }
}

impl vstd::std_specs::ops::AddSpecImpl for Vec4 {
    open spec fn obeys_add_spec() -> bool {
        true
    }

    open spec fn add_req(self, rhs: Vec4) -> bool {
        true
    }

    open spec fn add_spec(self, rhs: Vec4) -> Vec4 {
        Vec4::add_spec(self, rhs)
    }
}

impl core::ops::Sub for Vec4 {
    type Output = Vec4;

    fn sub(self, rhs: Vec4) -> (r: Vec4) {
        Vec4::sub(self, rhs)
    }
}

impl vstd::std_specs::ops::SubSpecImpl for Vec4 {
    open spec fn obeys_sub_spec() -> bool {
        true
    }

    open spec fn sub_req(self, rhs: Vec4) -> bool {
        true
    }

    open spec fn sub_spec(self, rhs: Vec4) -> Vec4 {
        Vec4::sub_spec(self, rhs)
    }
}

impl core::ops::Mul for Vec4 {
    type Output = Vec4;

    fn mul(self, rhs: Vec4) -> (r: Vec4) {
        Vec4::mul(self, rhs)
    }
}

impl vstd::std_specs::ops::MulSpecImpl for Vec4 {
    open spec fn obeys_mul_spec() -> bool {
        true
    }

    open spec fn mul_req(self, rhs: Vec4) -> bool {
        true
    }

    open spec fn mul_spec(self, rhs: Vec4) -> Vec4 {
        Vec4::mul_spec(self, rhs)
    }
}

impl core::ops::Div for Vec4 {
    type Output = Vec4;

    fn div(self, rhs: Vec4) -> (r: Vec4) {
        Vec4::div(self, rhs)
    }
}

impl vstd::std_specs::ops::DivSpecImpl for Vec4 {
    open spec fn obeys_div_spec() -> bool {
        true
    }

    open spec fn div_req(self, rhs: Vec4) -> bool {
        true
    }

    open spec fn div_spec(self, rhs: Vec4) -> Vec4 {
        Vec4::div_spec(self, rhs)
    }
}

impl core::ops::Add<F32> for Vec4 {
    type Output = Vec4;

    fn add(self, rhs: F32) -> (r: Vec4) {
        self.add_scalar(rhs)
    }
}

impl vstd::std_specs::ops::AddSpecImpl<F32> for Vec4 {
    open spec fn obeys_add_spec() -> bool {
        true
    }

    open spec fn add_req(self, rhs: F32) -> bool {
        true
    }

    open spec fn add_spec(self, rhs: F32) -> Vec4 {
        self.add_scalar_spec(rhs)
    }
}

impl core::ops::Sub<F32> for Vec4 {
    type Output = Vec4;

    fn sub(self, rhs: F32) -> (r: Vec4) {
        self.sub_scalar(rhs)
    }
}

impl vstd::std_specs::ops::SubSpecImpl<F32> for Vec4 {
    open spec fn obeys_sub_spec() -> bool {
        true
    }

    open spec fn sub_req(self, rhs: F32) -> bool {
        true
    }

    open spec fn sub_spec(self, rhs: F32) -> Vec4 {
        self.sub_scalar_spec(rhs)
    }
}

impl core::ops::Mul<F32> for Vec4 {
    type Output = Vec4;

    fn mul(self, rhs: F32) -> (r: Vec4) {
        self.mul_scalar(rhs)
    }
}

impl vstd::std_specs::ops::MulSpecImpl<F32> for Vec4 {
    open spec fn obeys_mul_spec() -> bool {
        true
    }

    open spec fn mul_req(self, rhs: F32) -> bool {
        true
    }

    open spec fn mul_spec(self, rhs: F32) -> Vec4 {
        self.mul_scalar_spec(rhs)
    }
}

impl core::ops::Div<F32> for Vec4 {
    type Output = Vec4;

    fn div(self, rhs: F32) -> (r: Vec4) {
        self.div_scalar(rhs)
    }
}

impl vstd::std_specs::ops::DivSpecImpl<F32> for Vec4 {
    open spec fn obeys_div_spec() -> bool {
        true
    }

    open spec fn div_req(self, rhs: F32) -> bool {
        true
    }

    open spec fn div_spec(self, rhs: F32) -> Vec4 {
        self.div_scalar_spec(rhs)
    }
}

impl core::ops::AddAssign for Vec4 {
    fn add_assign(&mut self, rhs: Vec4)
        ensures
            *final(self) == old(self).add_spec(rhs),
    {
        *self = Vec4::add(*self, rhs);
    }
}

impl core::ops::SubAssign for Vec4 {
    fn sub_assign(&mut self, rhs: Vec4)
        ensures
            *final(self) == old(self).sub_spec(rhs),
    {
        *self = Vec4::sub(*self, rhs);
    }
}

impl core::ops::MulAssign for Vec4 {
    fn mul_assign(&mut self, rhs: Vec4)
        ensures
            *final(self) == old(self).mul_spec(rhs),
    {
        *self = Vec4::mul(*self, rhs);
    }
}

impl core::ops::DivAssign for Vec4 {
    fn div_assign(&mut self, rhs: Vec4)
        ensures
            *final(self) == old(self).div_spec(rhs),
    {
        *self = Vec4::div(*self, rhs);
    }
}

impl core::ops::AddAssign<F32> for Vec4 {
    fn add_assign(&mut self, rhs: F32)
        ensures
            *final(self) == old(self).add_scalar_spec(rhs),
    {
        *self = self.add_scalar(rhs);
    }
}

impl core::ops::SubAssign<F32> for Vec4 {
    fn sub_assign(&mut self, rhs: F32)
        ensures
            *final(self) == old(self).sub_scalar_spec(rhs),
    {
        *self = self.sub_scalar(rhs);
    }
}

impl core::ops::MulAssign<F32> for Vec4 {
    fn mul_assign(&mut self, rhs: F32)
        ensures
            *final(self) == old(self).mul_scalar_spec(rhs),
    {
        *self = self.mul_scalar(rhs);
    }
}

impl core::ops::DivAssign<F32> for Vec4 {
    fn div_assign(&mut self, rhs: F32)
        ensures
            *final(self) == old(self).div_scalar_spec(rhs),
    {
        *self = self.div_scalar(rhs);
    }
}

/// A vector of three binary32 components.
#[derive(Clone, Copy, Debug)]
pub struct Vec3 {
    pub x: F32,
    pub y: F32,
    pub z: F32,
}

impl Vec3 {
    /// The vector of zeros.
    pub open spec fn zero_spec() -> Vec3 {
        Vec3 { x: F32 { bits: 0 }, y: F32 { bits: 0 }, z: F32 { bits: 0 } }
    }

    /// The vector of zeros.
    pub fn zero() -> (r: Vec3)
        ensures
            r == Vec3::zero_spec(),
    {
        Vec3 { x: F32 { bits: 0 }, y: F32 { bits: 0 }, z: F32 { bits: 0 } }
    }

    /// The vector with the given components.
    pub fn new(x: F32, y: F32, z: F32) -> (r: Vec3)
        ensures
            r == (Vec3 { x, y, z }),
    {
        Vec3 { x, y, z }
    }

    /// The vector with every component `v`.
    pub fn splat(v: F32) -> (r: Vec3)
        ensures
            r == (Vec3 { x: v, y: v, z: v }),
    {
        Vec3 { x: v, y: v, z: v }
    }

    /// The vector along the x axis: `x` there and zero elsewhere.
    pub fn x(x: F32) -> (r: Vec3)
        ensures
            r == (Vec3 { x, y: F32 { bits: 0 }, z: F32 { bits: 0 } }),
    {
        Vec3 { x, y: F32 { bits: 0 }, z: F32 { bits: 0 } }
    }

    /// The vector along the y axis: `y` there and zero elsewhere.
    pub fn y(y: F32) -> (r: Vec3)
        ensures
            r == (Vec3 { x: F32 { bits: 0 }, y, z: F32 { bits: 0 } }),
    {
        Vec3 { x: F32 { bits: 0 }, y, z: F32 { bits: 0 } }
    }

    /// The vector along the z axis: `z` there and zero elsewhere.
    pub fn z(z: F32) -> (r: Vec3)
        ensures
            r == (Vec3 { x: F32 { bits: 0 }, y: F32 { bits: 0 }, z }),
    {
        Vec3 { x: F32 { bits: 0 }, y: F32 { bits: 0 }, z }
    }

    /// The sum, component by component.
    pub open spec fn add_spec(self, rhs: Vec3) -> Vec3 {
        Vec3 { x: self.x.add_spec(rhs.x), y: self.y.add_spec(rhs.y), z: self.z.add_spec(rhs.z) }
    }

    /// The sum, component by component.
    pub fn add(self, rhs: Vec3) -> (r: Vec3)
        ensures
            r == self.add_spec(rhs),
    {
        Vec3 { x: self.x.add(rhs.x), y: self.y.add(rhs.y), z: self.z.add(rhs.z) }
    }

    /// The difference, component by component.
    pub open spec fn sub_spec(self, rhs: Vec3) -> Vec3 {
        Vec3 { x: self.x.sub_spec(rhs.x), y: self.y.sub_spec(rhs.y), z: self.z.sub_spec(rhs.z) }
    }

    /// The difference, component by component.
    pub fn sub(self, rhs: Vec3) -> (r: Vec3)
        ensures
            r == self.sub_spec(rhs),
    {
        Vec3 { x: self.x.sub(rhs.x), y: self.y.sub(rhs.y), z: self.z.sub(rhs.z) }
    }

    /// The product, component by component.
    pub open spec fn mul_spec(self, rhs: Vec3) -> Vec3 {
        Vec3 { x: self.x.mul_spec(rhs.x), y: self.y.mul_spec(rhs.y), z: self.z.mul_spec(rhs.z) }
    }

    /// The product, component by component.
    pub fn mul(self, rhs: Vec3) -> (r: Vec3)
        ensures
            r == self.mul_spec(rhs),
    {
        Vec3 { x: self.x.mul(rhs.x), y: self.y.mul(rhs.y), z: self.z.mul(rhs.z) }
    }

    /// The quotient, component by component: a zero divisor gives an infinity or a NaN there.
    pub open spec fn div_spec(self, rhs: Vec3) -> Vec3 {
        Vec3 { x: self.x.div_spec(rhs.x), y: self.y.div_spec(rhs.y), z: self.z.div_spec(rhs.z) }
    }

    /// The quotient, component by component: a zero divisor gives an infinity or a NaN there.
    pub fn div(self, rhs: Vec3) -> (r: Vec3)
        ensures
            r == self.div_spec(rhs),
    {
        Vec3 { x: self.x.div(rhs.x), y: self.y.div(rhs.y), z: self.z.div(rhs.z) }
    }

    /// Each component plus `rhs`.
    pub open spec fn add_scalar_spec(self, rhs: F32) -> Vec3 {
        Vec3 { x: self.x.add_spec(rhs), y: self.y.add_spec(rhs), z: self.z.add_spec(rhs) }
    }

    /// Each component plus `rhs`.
    pub fn add_scalar(self, rhs: F32) -> (r: Vec3)
        ensures
            r == self.add_scalar_spec(rhs),
    {
        Vec3 { x: self.x.add(rhs), y: self.y.add(rhs), z: self.z.add(rhs) }
    }

    /// Each component minus `rhs`.
    pub open spec fn sub_scalar_spec(self, rhs: F32) -> Vec3 {
        Vec3 { x: self.x.sub_spec(rhs), y: self.y.sub_spec(rhs), z: self.z.sub_spec(rhs) }
    }

    /// Each component minus `rhs`.
    pub fn sub_scalar(self, rhs: F32) -> (r: Vec3)
        ensures
            r == self.sub_scalar_spec(rhs),
    {
        Vec3 { x: self.x.sub(rhs), y: self.y.sub(rhs), z: self.z.sub(rhs) }
    }

    /// Each component times `rhs`.
    pub open spec fn mul_scalar_spec(self, rhs: F32) -> Vec3 {
        Vec3 { x: self.x.mul_spec(rhs), y: self.y.mul_spec(rhs), z: self.z.mul_spec(rhs) }
    }

    /// Each component times `rhs`.
    pub fn mul_scalar(self, rhs: F32) -> (r: Vec3)
        ensures
            r == self.mul_scalar_spec(rhs),
    {
        Vec3 { x: self.x.mul(rhs), y: self.y.mul(rhs), z: self.z.mul(rhs) }
    }

    /// Each component divided by `rhs`.
    pub open spec fn div_scalar_spec(self, rhs: F32) -> Vec3 {
        Vec3 { x: self.x.div_spec(rhs), y: self.y.div_spec(rhs), z: self.z.div_spec(rhs) }
    }

    /// Each component divided by `rhs`.
    pub fn div_scalar(self, rhs: F32) -> (r: Vec3)
        ensures
            r == self.div_scalar_spec(rhs),
    {
        Vec3 { x: self.x.div(rhs), y: self.y.div(rhs), z: self.z.div(rhs) }
    }

    /// The dot product: the products of the components, summed from the first.
    pub open spec fn dot_spec(self, rhs: Vec3) -> F32 {
        self.x.mul_spec(rhs.x).add_spec(self.y.mul_spec(rhs.y)).add_spec(self.z.mul_spec(rhs.z))
    }

    /// The dot product.
    pub fn dot(self, rhs: Vec3) -> (r: F32)
        ensures
            r == self.dot_spec(rhs),
    {
        self.x.mul(rhs.x).add(self.y.mul(rhs.y)).add(self.z.mul(rhs.z))
    }

    /// The squared length: the dot product with itself.
    pub open spec fn length_squared_spec(self) -> F32 {
        self.dot_spec(self)
    }

    /// The squared length.
    pub fn length_squared(self) -> (r: F32)
        ensures
            r == self.length_squared_spec(),
    {
        self.dot(self)
    }

    /// The length: the square root of the squared length.
    pub open spec fn length_spec(self) -> F32 {
        self.length_squared_spec().sqrt_spec()
    }

    /// The length.
    pub fn length(self) -> (r: F32)
        ensures
            r == self.length_spec(),
    {
        self.length_squared().sqrt()
    }

    /// The components in order.
    pub fn to_array(self) -> (r: [F32; 3])
        ensures
            r[0] == self.x,
            r[1] == self.y,
            r[2] == self.z,
    {
        [self.x, self.y, self.z]
    }

    /// The vector without its last component.
    pub fn reduce(self) -> (r: Vec2)
        ensures
            r == (Vec2 { x: self.x, y: self.y }),
    {
        Vec2 { x: self.x, y: self.y }
    }

    /// The vector with `w` as one more component.
    pub fn extend(self, w: F32) -> (r: Vec4)
        ensures
            r == (Vec4 { x: self.x, y: self.y, z: self.z, w }),
    {
        Vec4 { x: self.x, y: self.y, z: self.z, w }
    }

    /// The vector with every sign flipped.
    pub open spec fn neg_spec(self) -> Vec3 {
        Vec3 { x: self.x.neg_spec(), y: self.y.neg_spec(), z: self.z.neg_spec() }
    }

    /// The vector with every sign flipped.
    pub fn neg(self) -> (r: Vec3)
        ensures
            r == self.neg_spec(),
    {
        Vec3 { x: self.x.neg(), y: self.y.neg(), z: self.z.neg() }
    }

    /// The sum of the components, from the first.
    pub open spec fn element_sum_spec(self) -> F32 {
        self.x.add_spec(self.y).add_spec(self.z)
    }

    /// The sum of the components.
    pub fn element_sum(self) -> (r: F32)
        ensures
            r == self.element_sum_spec(),
    {
        self.x.add(self.y).add(self.z)
    }

    /// Each component divided by the length.
    pub open spec fn normalize_spec(self) -> Vec3 {
        self.div_scalar_spec(self.length_spec())
    }

    /// The vector scaled to length one. A vector whose length is zero has no direction
    /// and is left out.
    pub fn normalize(self) -> (r: Vec3)
        requires
            !self.length_spec().zero(),
        ensures
            r == self.normalize_spec(),
    {
        let length = self.length();
        self.div_scalar(length)
    }

    /// The vector scaled to length one, or the zero vector where the length is zero.
    pub open spec fn normalize_or_zero_spec(self) -> Vec3 {
        if self.length_spec().zero() {
            Vec3::zero_spec()
        } else {
            self.normalize_spec()
        }
    }

    /// The vector scaled to length one, or the zero vector where the length is zero.
    pub fn normalize_or_zero(self) -> (r: Vec3)
        ensures
            r == self.normalize_or_zero_spec(),
    {
        let length = self.length();
        if length.is_zero() {
            Vec3::zero()
        } else {
            self.div_scalar(length)
        }
    }

    /// Widens every component to binary64.
    pub fn to_dvec3(self) -> (r: DVec3)
        ensures
            r == (DVec3 {
                x: self.x.to_double_spec(),
                y: self.y.to_double_spec(),
                z: self.z.to_double_spec(),
            }),
    {
        DVec3 { x: self.x.to_double(), y: self.y.to_double(), z: self.z.to_double() }
    }

    /// The cross product.
    pub open spec fn cross_spec(self, rhs: Vec3) -> Vec3 {
        Vec3 {
            x: self.y.mul_spec(rhs.z).sub_spec(rhs.y.mul_spec(self.z)),
            y: self.z.mul_spec(rhs.x).sub_spec(rhs.z.mul_spec(self.x)),
            z: self.x.mul_spec(rhs.y).sub_spec(rhs.x.mul_spec(self.y)),
        }
    }

    /// The cross product.
    pub fn cross(self, rhs: Vec3) -> (r: Vec3)
        ensures
            r == self.cross_spec(rhs),
    {
        Vec3 {
            x: self.y.mul(rhs.z).sub(rhs.y.mul(self.z)),
            y: self.z.mul(rhs.x).sub(rhs.z.mul(self.x)),
            z: self.x.mul(rhs.y).sub(rhs.x.mul(self.y)),
        }
    }

    /// The squared distance to `rhs`.
    pub open spec fn distance_squared_spec(self, rhs: Vec3) -> F32 {
        self.sub_spec(rhs).length_squared_spec()
    }

    /// The squared distance to `rhs`.
    pub fn distance_squared(self, rhs: Vec3) -> (r: F32)
        ensures
            r == self.distance_squared_spec(rhs),
    {
        self.sub(rhs).length_squared()
    }

    /// The distance to `rhs`.
    pub open spec fn distance_spec(self, rhs: Vec3) -> F32 {
        self.sub_spec(rhs).length_spec()
    }

    /// The distance to `rhs`.
    pub fn distance(self, rhs: Vec3) -> (r: F32)
        ensures
            r == self.distance_spec(rhs),
    {
        self.sub(rhs).length()
    }

    /// The vector turned about the x axis: `y' = y cos - z sin`, `z' = y sin + z cos`.
    pub open spec fn rotate_x_spec(self, angle: Angle) -> Vec3 {
        Vec3 {
            x: self.x,
            y: self.y.mul_spec(angle.cos).sub_spec(self.z.mul_spec(angle.sin)),
            z: self.y.mul_spec(angle.sin).add_spec(self.z.mul_spec(angle.cos)),
        }
    }

    /// The vector turned about the x axis by an angle whose sine and cosine are given.
    pub fn rotate_x(self, angle: Angle) -> (r: Vec3)
        ensures
            r == self.rotate_x_spec(angle),
    {
        Vec3 {
            x: self.x,
            y: self.y.mul(angle.cos).sub(self.z.mul(angle.sin)),
            z: self.y.mul(angle.sin).add(self.z.mul(angle.cos)),
        }
    }

    /// The vector turned about the y axis: `x' = x cos + z sin`, `z' = -x sin + z cos`.
    pub open spec fn rotate_y_spec(self, angle: Angle) -> Vec3 {
        Vec3 {
            x: self.x.mul_spec(angle.cos).add_spec(self.z.mul_spec(angle.sin)),
            y: self.y,
            z: self.x.neg_spec().mul_spec(angle.sin).add_spec(self.z.mul_spec(angle.cos)),
        }
    }

    /// The vector turned about the y axis by an angle whose sine and cosine are given.
    pub fn rotate_y(self, angle: Angle) -> (r: Vec3)
        ensures
            r == self.rotate_y_spec(angle),
    {
        Vec3 {
            x: self.x.mul(angle.cos).add(self.z.mul(angle.sin)),
            y: self.y,
            z: self.x.neg().mul(angle.sin).add(self.z.mul(angle.cos)),
        }
    }

    /// The vector turned about the z axis: `x' = x cos - y sin`, `y' = x sin + y cos`.
    pub open spec fn rotate_z_spec(self, angle: Angle) -> Vec3 {
        Vec3 {
            x: self.x.mul_spec(angle.cos).sub_spec(self.y.mul_spec(angle.sin)),
            y: self.x.mul_spec(angle.sin).add_spec(self.y.mul_spec(angle.cos)),
            z: self.z,
        }
    }

    /// The vector turned about the z axis by an angle whose sine and cosine are given.
    pub fn rotate_z(self, angle: Angle) -> (r: Vec3)
        ensures
            r == self.rotate_z_spec(angle),
    {
        Vec3 {
            x: self.x.mul(angle.cos).sub(self.y.mul(angle.sin)),
            y: self.x.mul(angle.sin).add(self.y.mul(angle.cos)),
            z: self.z,
        }
    }

    /// Whether no component is a NaN.
    pub open spec fn no_nan(self) -> bool {
        !self.x.nan() && !self.y.nan() && !self.z.nan()
    }

    /// Equality of vectors: every pair of components holds equal numbers.
    pub open spec fn equal(self, rhs: Vec3) -> bool {
        self.x.equal(rhs.x) && self.y.equal(rhs.y) && self.z.equal(rhs.z)
    }
}

impl PartialEq for Vec3 {
    fn eq(&self, other: &Vec3) -> (r: bool) {
        self.x == other.x && self.y == other.y && self.z == other.z
    }
}

impl PartialEqSpecImpl for Vec3 {
    open spec fn obeys_eq_spec() -> bool {
        true
    }

    open spec fn eq_spec(&self, other: &Vec3) -> bool {
        self.equal(*other)
    }
}

impl Default for Vec3 {
    fn default() -> (r: Vec3)
        ensures
            r == Vec3::zero_spec(),
    {
        Vec3::zero()
    }
}

impl core::ops::Add for Vec3 {
    type Output = Vec3;

    fn add(self, rhs: Vec3) -> (r: Vec3) {
        Vec3::add(self, rhs)
    }
}

impl vstd::std_specs::ops::AddSpecImpl for Vec3 {
    open spec fn obeys_add_spec() -> bool {
        true
    }

    open spec fn add_req(self, rhs: Vec3) -> bool {
        true
    }

    open spec fn add_spec(self, rhs: Vec3) -> Vec3 {
        Vec3::add_spec(self, rhs)
    }
}

impl core::ops::Sub for Vec3 {
    type Output = Vec3;

    fn sub(self, rhs: Vec3) -> (r: Vec3) {
        Vec3::sub(self, rhs)
    }
}

impl vstd::std_specs::ops::SubSpecImpl for Vec3 {
    open spec fn obeys_sub_spec() -> bool {
        true
    }

    open spec fn sub_req(self, rhs: Vec3) -> bool {
        true
    }

    open spec fn sub_spec(self, rhs: Vec3) -> Vec3 {
        Vec3::sub_spec(self, rhs)
    }
}

impl core::ops::Mul for Vec3 {
    type Output = Vec3;

    fn mul(self, rhs: Vec3) -> (r: Vec3) {
        Vec3::mul(self, rhs)
    }
}

impl vstd::std_specs::ops::MulSpecImpl for Vec3 {
    open spec fn obeys_mul_spec() -> bool {
        true
    }

    open spec fn mul_req(self, rhs: Vec3) -> bool {
        true
    }

    open spec fn mul_spec(self, rhs: Vec3) -> Vec3 {
        Vec3::mul_spec(self, rhs)
    }
}

impl core::ops::Div for Vec3 {
    type Output = Vec3;

    fn div(self, rhs: Vec3) -> (r: Vec3) {
        Vec3::div(self, rhs)
    }
}

impl vstd::std_specs::ops::DivSpecImpl for Vec3 {
    open spec fn obeys_div_spec() -> bool {
        true
    }

    open spec fn div_req(self, rhs: Vec3) -> bool {
        true
    }

    open spec fn div_spec(self, rhs: Vec3) -> Vec3 {
        Vec3::div_spec(self, rhs)
    }
}

impl core::ops::Add<F32> for Vec3 {
    type Output = Vec3;

    fn add(self, rhs: F32) -> (r: Vec3) {
        self.add_scalar(rhs)
    }
}

impl vstd::std_specs::ops::AddSpecImpl<F32> for Vec3 {
    open spec fn obeys_add_spec() -> bool {
        true
    }

    open spec fn add_req(self, rhs: F32) -> bool {
        true
    }

    open spec fn add_spec(self, rhs: F32) -> Vec3 {
        self.add_scalar_spec(rhs)
    }
}

impl core::ops::Sub<F32> for Vec3 {
    type Output = Vec3;

    fn sub(self, rhs: F32) -> (r: Vec3) {
        self.sub_scalar(rhs)
    }
}

impl vstd::std_specs::ops::SubSpecImpl<F32> for Vec3 {
    open spec fn obeys_sub_spec() -> bool {
        true
    }

    open spec fn sub_req(self, rhs: F32) -> bool {
        true
    }

    open spec fn sub_spec(self, rhs: F32) -> Vec3 {
        self.sub_scalar_spec(rhs)
    }
}

impl core::ops::Mul<F32> for Vec3 {
    type Output = Vec3;

    fn mul(self, rhs: F32) -> (r: Vec3) {
        self.mul_scalar(rhs)
    }
}

impl vstd::std_specs::ops::MulSpecImpl<F32> for Vec3 {
    open spec fn obeys_mul_spec() -> bool {
        true
    }

    open spec fn mul_req(self, rhs: F32) -> bool {
        true
    }

    open spec fn mul_spec(self, rhs: F32) -> Vec3 {
        self.mul_scalar_spec(rhs)
    }
}

impl core::ops::Div<F32> for Vec3 {
    type Output = Vec3;

    fn div(self, rhs: F32) -> (r: Vec3) {
        self.div_scalar(rhs)
    }
}

impl vstd::std_specs::ops::DivSpecImpl<F32> for Vec3 {
    open spec fn obeys_div_spec() -> bool {
        true
    }

    open spec fn div_req(self, rhs: F32) -> bool {
        true
    }

    open spec fn div_spec(self, rhs: F32) -> Vec3 {
        self.div_scalar_spec(rhs)
    }
}

impl core::ops::Neg for Vec3 {
    type Output = Vec3;

    fn neg(self) -> (r: Vec3) {
        Vec3::neg(self)
    }
}

impl vstd::std_specs::ops::NegSpecImpl for Vec3 {
    open spec fn obeys_neg_spec() -> bool {
        true
    }

    open spec fn neg_req(self) -> bool {
        true
    }

    open spec fn neg_spec(self) -> Vec3 {
        Vec3::neg_spec(self)
    }
}

impl core::ops::AddAssign for Vec3 {
    fn add_assign(&mut self, rhs: Vec3)
        ensures
            *final(self) == old(self).add_spec(rhs),
    {
        *self = Vec3::add(*self, rhs);
    }
}

impl core::ops::SubAssign for Vec3 {
    fn sub_assign(&mut self, rhs: Vec3)
        ensures
            *final(self) == old(self).sub_spec(rhs),
    {
        *self = Vec3::sub(*self, rhs);
    }
}

impl core::ops::MulAssign for Vec3 {
    fn mul_assign(&mut self, rhs: Vec3)
        ensures
            *final(self) == old(self).mul_spec(rhs),
    {
        *self = Vec3::mul(*self, rhs);
    }
}

impl core::ops::DivAssign for Vec3 {
    fn div_assign(&mut self, rhs: Vec3)
        ensures
            *final(self) == old(self).div_spec(rhs),
    {
        *self = Vec3::div(*self, rhs);
    }
}

impl core::ops::AddAssign<F32> for Vec3 {
    fn add_assign(&mut self, rhs: F32)
        ensures
            *final(self) == old(self).add_scalar_spec(rhs),
    {
        *self = self.add_scalar(rhs);
    }
}

impl core::ops::SubAssign<F32> for Vec3 {
    fn sub_assign(&mut self, rhs: F32)
        ensures
            *final(self) == old(self).sub_scalar_spec(rhs),
    {
        *self = self.sub_scalar(rhs);
    }
}

impl core::ops::MulAssign<F32> for Vec3 {
    fn mul_assign(&mut self, rhs: F32)
        ensures
            *final(self) == old(self).mul_scalar_spec(rhs),
    {
        *self = self.mul_scalar(rhs);
    }
}

impl core::ops::DivAssign<F32> for Vec3 {
    fn div_assign(&mut self, rhs: F32)
        ensures
            *final(self) == old(self).div_scalar_spec(rhs),
    {
        *self = self.div_scalar(rhs);
    }
}

/// A vector of three binary64 components.
#[derive(Clone, Copy, Debug)]
pub struct DVec3 {
    pub x: F64,
    pub y: F64,
    pub z: F64,
}

impl DVec3 {
    /// The vector of zeros.
    pub open spec fn zero_spec() -> DVec3 {
        DVec3 { x: F64 { bits: 0 }, y: F64 { bits: 0 }, z: F64 { bits: 0 } }
    }

    /// The vector of zeros.
    pub fn zero() -> (r: DVec3)
        ensures
            r == DVec3::zero_spec(),
    {
        DVec3 { x: F64 { bits: 0 }, y: F64 { bits: 0 }, z: F64 { bits: 0 } }
    }

    /// The vector with the given components.
    pub fn new(x: F64, y: F64, z: F64) -> (r: DVec3)
        ensures
            r == (DVec3 { x, y, z }),
    {
        DVec3 { x, y, z }
    }

    /// The vector with every component `v`.
    pub fn splat(v: F64) -> (r: DVec3)
        ensures
            r == (DVec3 { x: v, y: v, z: v }),
    {
        DVec3 { x: v, y: v, z: v }
    }

    /// The vector along the x axis: `x` there and zero elsewhere.
    pub fn x(x: F64) -> (r: DVec3)
        ensures
            r == (DVec3 { x, y: F64 { bits: 0 }, z: F64 { bits: 0 } }),
    {
        DVec3 { x, y: F64 { bits: 0 }, z: F64 { bits: 0 } }
    }

    /// The vector along the y axis: `y` there and zero elsewhere.
    pub fn y(y: F64) -> (r: DVec3)
        ensures
            r == (DVec3 { x: F64 { bits: 0 }, y, z: F64 { bits: 0 } }),
    {
        DVec3 { x: F64 { bits: 0 }, y, z: F64 { bits: 0 } }
    }

    /// The vector along the z axis: `z` there and zero elsewhere.
    pub fn z(z: F64) -> (r: DVec3)
        ensures
            r == (DVec3 { x: F64 { bits: 0 }, y: F64 { bits: 0 }, z }),
    {
        DVec3 { x: F64 { bits: 0 }, y: F64 { bits: 0 }, z }
    }

    /// The sum, component by component.
    pub open spec fn add_spec(self, rhs: DVec3) -> DVec3 {
        DVec3 {
            x: self.x.add_spec(rhs.x),
            y: self.y.add_spec(rhs.y),
            z: self.z.add_spec(rhs.z),
        }
    }

    /// The sum, component by component.
    pub fn add(self, rhs: DVec3) -> (r: DVec3)
        ensures
            r == self.add_spec(rhs),
    {
        DVec3 { x: self.x.add(rhs.x), y: self.y.add(rhs.y), z: self.z.add(rhs.z) }
    }

    /// The difference, component by component.
    pub open spec fn sub_spec(self, rhs: DVec3) -> DVec3 {
        DVec3 {
            x: self.x.sub_spec(rhs.x),
            y: self.y.sub_spec(rhs.y),
            z: self.z.sub_spec(rhs.z),
        }
    }

    /// The difference, component by component.
    pub fn sub(self, rhs: DVec3) -> (r: DVec3)
        ensures
            r == self.sub_spec(rhs),
    {
        DVec3 { x: self.x.sub(rhs.x), y: self.y.sub(rhs.y), z: self.z.sub(rhs.z) }
    }

    /// The product, component by component.
    pub open spec fn mul_spec(self, rhs: DVec3) -> DVec3 {
        DVec3 {
            x: self.x.mul_spec(rhs.x),
            y: self.y.mul_spec(rhs.y),
            z: self.z.mul_spec(rhs.z),
        }
    }

    /// The product, component by component.
    pub fn mul(self, rhs: DVec3) -> (r: DVec3)
        ensures
            r == self.mul_spec(rhs),
    {
        DVec3 { x: self.x.mul(rhs.x), y: self.y.mul(rhs.y), z: self.z.mul(rhs.z) }
    }

    /// The quotient, component by component: a zero divisor gives an infinity or a NaN there.
    pub open spec fn div_spec(self, rhs: DVec3) -> DVec3 {
        DVec3 {
            x: self.x.div_spec(rhs.x),
            y: self.y.div_spec(rhs.y),
            z: self.z.div_spec(rhs.z),
        }
    }

    /// The quotient, component by component: a zero divisor gives an infinity or a NaN there.
    pub fn div(self, rhs: DVec3) -> (r: DVec3)
        ensures
            r == self.div_spec(rhs),
    {
        DVec3 { x: self.x.div(rhs.x), y: self.y.div(rhs.y), z: self.z.div(rhs.z) }
    }

    /// Each component plus `rhs`.
    pub open spec fn add_scalar_spec(self, rhs: F64) -> DVec3 {
        DVec3 { x: self.x.add_spec(rhs), y: self.y.add_spec(rhs), z: self.z.add_spec(rhs) }
    }

    /// Each component plus `rhs`.
    pub fn add_scalar(self, rhs: F64) -> (r: DVec3)
        ensures
            r == self.add_scalar_spec(rhs),
    {
        DVec3 { x: self.x.add(rhs), y: self.y.add(rhs), z: self.z.add(rhs) }
    }

    /// Each component minus `rhs`.
    pub open spec fn sub_scalar_spec(self, rhs: F64) -> DVec3 {
        DVec3 { x: self.x.sub_spec(rhs), y: self.y.sub_spec(rhs), z: self.z.sub_spec(rhs) }
    }

    /// Each component minus `rhs`.
    pub fn sub_scalar(self, rhs: F64) -> (r: DVec3)
        ensures
            r == self.sub_scalar_spec(rhs),
    {
        DVec3 { x: self.x.sub(rhs), y: self.y.sub(rhs), z: self.z.sub(rhs) }
    }

    /// Each component times `rhs`.
    pub open spec fn mul_scalar_spec(self, rhs: F64) -> DVec3 {
        DVec3 { x: self.x.mul_spec(rhs), y: self.y.mul_spec(rhs), z: self.z.mul_spec(rhs) }
    }

    /// Each component times `rhs`.
    pub fn mul_scalar(self, rhs: F64) -> (r: DVec3)
        ensures
            r == self.mul_scalar_spec(rhs),
    {
        DVec3 { x: self.x.mul(rhs), y: self.y.mul(rhs), z: self.z.mul(rhs) }
    }

    /// Each component divided by `rhs`.
    pub open spec fn div_scalar_spec(self, rhs: F64) -> DVec3 {
        DVec3 { x: self.x.div_spec(rhs), y: self.y.div_spec(rhs), z: self.z.div_spec(rhs) }
    }

    /// Each component divided by `rhs`.
    pub fn div_scalar(self, rhs: F64) -> (r: DVec3)
        ensures
            r == self.div_scalar_spec(rhs),
    {
        DVec3 { x: self.x.div(rhs), y: self.y.div(rhs), z: self.z.div(rhs) }
    }

    /// The dot product: the products of the components, summed from the first.
    pub open spec fn dot_spec(self, rhs: DVec3) -> F64 {
        self.x.mul_spec(rhs.x).add_spec(self.y.mul_spec(rhs.y)).add_spec(self.z.mul_spec(rhs.z))
    }

    /// The dot product.
    pub fn dot(self, rhs: DVec3) -> (r: F64)
        ensures
            r == self.dot_spec(rhs),
    {
        self.x.mul(rhs.x).add(self.y.mul(rhs.y)).add(self.z.mul(rhs.z))
    }

    /// The squared length: the dot product with itself.
    pub open spec fn length_squared_spec(self) -> F64 {
        self.dot_spec(self)
    }

    /// The squared length.
    pub fn length_squared(self) -> (r: F64)
        ensures
            r == self.length_squared_spec(),
    {
        self.dot(self)
    }

    /// The length: the square root of the squared length.
    pub open spec fn length_spec(self) -> F64 {
        self.length_squared_spec().sqrt_spec()
    }

    /// The length.
    pub fn length(self) -> (r: F64)
        ensures
            r == self.length_spec(),
    {
        self.length_squared().sqrt()
    }

    /// The components in order.
    pub fn to_array(self) -> (r: [F64; 3])
        ensures
            r[0] == self.x,
            r[1] == self.y,
            r[2] == self.z,
    {
        [self.x, self.y, self.z]
    }

    /// The vector without its last component.
    pub fn reduce(self) -> (r: DVec2)
        ensures
            r == (DVec2 { x: self.x, y: self.y }),
    {
        DVec2 { x: self.x, y: self.y }
    }

    /// The vector with every sign flipped.
    pub open spec fn neg_spec(self) -> DVec3 {
        DVec3 { x: self.x.neg_spec(), y: self.y.neg_spec(), z: self.z.neg_spec() }
    }

    /// The vector with every sign flipped.
    pub fn neg(self) -> (r: DVec3)
        ensures
            r == self.neg_spec(),
    {
        DVec3 { x: self.x.neg(), y: self.y.neg(), z: self.z.neg() }
    }

    /// The sum of the components, from the first.
    pub open spec fn element_sum_spec(self) -> F64 {
        self.x.add_spec(self.y).add_spec(self.z)
    }

    /// The sum of the components.
    pub fn element_sum(self) -> (r: F64)
        ensures
            r == self.element_sum_spec(),
    {
        self.x.add(self.y).add(self.z)
    }

    /// Each component divided by the length.
    pub open spec fn normalize_spec(self) -> DVec3 {
        self.div_scalar_spec(self.length_spec())
    }

    /// The vector scaled to length one. A vector whose length is zero has no direction
    /// and is left out.
    pub fn normalize(self) -> (r: DVec3)
        requires
            !self.length_spec().zero(),
        ensures
            r == self.normalize_spec(),
    {
        let length = self.length();
        self.div_scalar(length)
    }

    /// The vector scaled to length one, or the zero vector where the length is zero.
    pub open spec fn normalize_or_zero_spec(self) -> DVec3 {
        if self.length_spec().zero() {
            DVec3::zero_spec()
        } else {
            self.normalize_spec()
        }
    }

    /// The vector scaled to length one, or the zero vector where the length is zero.
    pub fn normalize_or_zero(self) -> (r: DVec3)
        ensures
            r == self.normalize_or_zero_spec(),
    {
        let length = self.length();
        if length.is_zero() {
            DVec3::zero()
        } else {
            self.div_scalar(length)
        }
    }

    /// Narrows every component to binary32, rounding to nearest.
    pub fn to_vec3(self) -> (r: Vec3)
        ensures
            r == (Vec3 {
                x: self.x.to_single_spec(),
                y: self.y.to_single_spec(),
                z: self.z.to_single_spec(),
            }),
    {
        Vec3 { x: self.x.to_single(), y: self.y.to_single(), z: self.z.to_single() }
    }

    /// The cross product.
    pub open spec fn cross_spec(self, rhs: DVec3) -> DVec3 {
        DVec3 {
            x: self.y.mul_spec(rhs.z).sub_spec(rhs.y.mul_spec(self.z)),
            y: self.z.mul_spec(rhs.x).sub_spec(rhs.z.mul_spec(self.x)),
            z: self.x.mul_spec(rhs.y).sub_spec(rhs.x.mul_spec(self.y)),
        }
    }

    /// The cross product.
    pub fn cross(self, rhs: DVec3) -> (r: DVec3)
        ensures
            r == self.cross_spec(rhs),
    {
        DVec3 {
            x: self.y.mul(rhs.z).sub(rhs.y.mul(self.z)),
            y: self.z.mul(rhs.x).sub(rhs.z.mul(self.x)),
            z: self.x.mul(rhs.y).sub(rhs.x.mul(self.y)),
        }
    }

    /// The squared distance to `rhs`.
    pub open spec fn distance_squared_spec(self, rhs: DVec3) -> F64 {
        self.sub_spec(rhs).length_squared_spec()
    }

    /// The squared distance to `rhs`.
    pub fn distance_squared(self, rhs: DVec3) -> (r: F64)
        ensures
            r == self.distance_squared_spec(rhs),
    {
        self.sub(rhs).length_squared()
    }

    /// The distance to `rhs`.
    pub open spec fn distance_spec(self, rhs: DVec3) -> F64 {
        self.sub_spec(rhs).length_spec()
    }

    /// The distance to `rhs`.
    pub fn distance(self, rhs: DVec3) -> (r: F64)
        ensures
            r == self.distance_spec(rhs),
    {
        self.sub(rhs).length()
    }

    /// The vector turned about the x axis: `y' = y cos - z sin`, `z' = y sin + z cos`.
    pub open spec fn rotate_x_spec(self, angle: DAngle) -> DVec3 {
        DVec3 {
            x: self.x,
            y: self.y.mul_spec(angle.cos).sub_spec(self.z.mul_spec(angle.sin)),
            z: self.y.mul_spec(angle.sin).add_spec(self.z.mul_spec(angle.cos)),
        }
    }

    /// The vector turned about the x axis by an angle whose sine and cosine are given.
    pub fn rotate_x(self, angle: DAngle) -> (r: DVec3)
        ensures
            r == self.rotate_x_spec(angle),
    {
        DVec3 {
            x: self.x,
            y: self.y.mul(angle.cos).sub(self.z.mul(angle.sin)),
            z: self.y.mul(angle.sin).add(self.z.mul(angle.cos)),
        }
    }

    /// The vector turned about the y axis: `x' = x cos + z sin`, `z' = -x sin + z cos`.
    pub open spec fn rotate_y_spec(self, angle: DAngle) -> DVec3 {
        DVec3 {
            x: self.x.mul_spec(angle.cos).add_spec(self.z.mul_spec(angle.sin)),
            y: self.y,
            z: self.x.neg_spec().mul_spec(angle.sin).add_spec(self.z.mul_spec(angle.cos)),
        }
    }

    /// The vector turned about the y axis by an angle whose sine and cosine are given.
    pub fn rotate_y(self, angle: DAngle) -> (r: DVec3)
        ensures
            r == self.rotate_y_spec(angle),
    {
        DVec3 {
            x: self.x.mul(angle.cos).add(self.z.mul(angle.sin)),
            y: self.y,
            z: self.x.neg().mul(angle.sin).add(self.z.mul(angle.cos)),
        }
    }

    /// The vector turned about the z axis: `x' = x cos - y sin`, `y' = x sin + y cos`.
    pub open spec fn rotate_z_spec(self, angle: DAngle) -> DVec3 {
        DVec3 {
            x: self.x.mul_spec(angle.cos).sub_spec(self.y.mul_spec(angle.sin)),
            y: self.x.mul_spec(angle.sin).add_spec(self.y.mul_spec(angle.cos)),
            z: self.z,
        }
    }

    /// The vector turned about the z axis by an angle whose sine and cosine are given.
    pub fn rotate_z(self, angle: DAngle) -> (r: DVec3)
        ensures
            r == self.rotate_z_spec(angle),
    {
        DVec3 {
            x: self.x.mul(angle.cos).sub(self.y.mul(angle.sin)),
            y: self.x.mul(angle.sin).add(self.y.mul(angle.cos)),
            z: self.z,
        }
    }

    /// Equality of vectors: every pair of components holds equal numbers.
    pub open spec fn equal(self, rhs: DVec3) -> bool {
        self.x.equal(rhs.x) && self.y.equal(rhs.y) && self.z.equal(rhs.z)
    }
}

impl PartialEq for DVec3 {
    fn eq(&self, other: &DVec3) -> (r: bool) {
        self.x == other.x && self.y == other.y && self.z == other.z
    }
}

impl PartialEqSpecImpl for DVec3 {
    open spec fn obeys_eq_spec() -> bool {
        true
    }

    open spec fn eq_spec(&self, other: &DVec3) -> bool {
        self.equal(*other)
    }
}

impl Default for DVec3 {
    fn default() -> (r: DVec3)
        ensures
            r == DVec3::zero_spec(),
    {
        DVec3::zero()
    }
}

impl core::ops::Add for DVec3 {
    type Output = DVec3;

    fn add(self, rhs: DVec3) -> (r: DVec3) {
        DVec3::add(self, rhs)
    }
}

impl vstd::std_specs::ops::AddSpecImpl for DVec3 {
    open spec fn obeys_add_spec() -> bool {
        true
    }

    open spec fn add_req(self, rhs: DVec3) -> bool {
        true
    }

    open spec fn add_spec(self, rhs: DVec3) -> DVec3 {
        DVec3::add_spec(self, rhs)
    }
}

impl core::ops::Sub for DVec3 {
    type Output = DVec3;

    fn sub(self, rhs: DVec3) -> (r: DVec3) {
        DVec3::sub(self, rhs)
    }
}

impl vstd::std_specs::ops::SubSpecImpl for DVec3 {
    open spec fn obeys_sub_spec() -> bool {
        true
    }

    open spec fn sub_req(self, rhs: DVec3) -> bool {
        true
    }

    open spec fn sub_spec(self, rhs: DVec3) -> DVec3 {
        DVec3::sub_spec(self, rhs)
    }
}

impl core::ops::Mul for DVec3 {
    type Output = DVec3;

    fn mul(self, rhs: DVec3) -> (r: DVec3) {
        DVec3::mul(self, rhs)
    }
}

impl vstd::std_specs::ops::MulSpecImpl for DVec3 {
    open spec fn obeys_mul_spec() -> bool {
        true
    }

    open spec fn mul_req(self, rhs: DVec3) -> bool {
        true
    }

    open spec fn mul_spec(self, rhs: DVec3) -> DVec3 {
        DVec3::mul_spec(self, rhs)
    }
}

impl core::ops::Div for DVec3 {
    type Output = DVec3;

    fn div(self, rhs: DVec3) -> (r: DVec3) {
        DVec3::div(self, rhs)
    }
}

impl vstd::std_specs::ops::DivSpecImpl for DVec3 {
    open spec fn obeys_div_spec() -> bool {
        true
    }

    open spec fn div_req(self, rhs: DVec3) -> bool {
        true
    }

    open spec fn div_spec(self, rhs: DVec3) -> DVec3 {
        DVec3::div_spec(self, rhs)
    }
}

impl core::ops::Add<F64> for DVec3 {
    type Output = DVec3;

    fn add(self, rhs: F64) -> (r: DVec3) {
        self.add_scalar(rhs)
    }
}

impl vstd::std_specs::ops::AddSpecImpl<F64> for DVec3 {
    open spec fn obeys_add_spec() -> bool {
        true
    }

    open spec fn add_req(self, rhs: F64) -> bool {
        true
    }

    open spec fn add_spec(self, rhs: F64) -> DVec3 {
        self.add_scalar_spec(rhs)
    }
}

impl core::ops::Sub<F64> for DVec3 {
    type Output = DVec3;

    fn sub(self, rhs: F64) -> (r: DVec3) {
        self.sub_scalar(rhs)
    }
}

impl vstd::std_specs::ops::SubSpecImpl<F64> for DVec3 {
    open spec fn obeys_sub_spec() -> bool {
        true
    }

    open spec fn sub_req(self, rhs: F64) -> bool {
        true
    }

    open spec fn sub_spec(self, rhs: F64) -> DVec3 {
        self.sub_scalar_spec(rhs)
    }
}

impl core::ops::Mul<F64> for DVec3 {
    type Output = DVec3;

    fn mul(self, rhs: F64) -> (r: DVec3) {
        self.mul_scalar(rhs)
    }
}

impl vstd::std_specs::ops::MulSpecImpl<F64> for DVec3 {
    open spec fn obeys_mul_spec() -> bool {
        true
    }

    open spec fn mul_req(self, rhs: F64) -> bool {
        true
    }

    open spec fn mul_spec(self, rhs: F64) -> DVec3 {
        self.mul_scalar_spec(rhs)
    }
}

impl core::ops::Div<F64> for DVec3 {
    type Output = DVec3;

    fn div(self, rhs: F64) -> (r: DVec3) {
        self.div_scalar(rhs)
    }
}

impl vstd::std_specs::ops::DivSpecImpl<F64> for DVec3 {
    open spec fn obeys_div_spec() -> bool {
        true
    }

    open spec fn div_req(self, rhs: F64) -> bool {
        true
    }

    open spec fn div_spec(self, rhs: F64) -> DVec3 {
        self.div_scalar_spec(rhs)
    }
}

impl core::ops::Neg for DVec3 {
    type Output = DVec3;

    fn neg(self) -> (r: DVec3) {
        DVec3::neg(self)
    }
}

impl vstd::std_specs::ops::NegSpecImpl for DVec3 {
    open spec fn obeys_neg_spec() -> bool {
        true
    }

    open spec fn neg_req(self) -> bool {
        true
    }

    open spec fn neg_spec(self) -> DVec3 {
        DVec3::neg_spec(self)
    }
}

impl core::ops::AddAssign for DVec3 {
    fn add_assign(&mut self, rhs: DVec3)
        ensures
            *final(self) == old(self).add_spec(rhs),
    {
        *self = DVec3::add(*self, rhs);
    }
}

impl core::ops::SubAssign for DVec3 {
    fn sub_assign(&mut self, rhs: DVec3)
        ensures
            *final(self) == old(self).sub_spec(rhs),
    {
        *self = DVec3::sub(*self, rhs);
    }
}

impl core::ops::MulAssign for DVec3 {
    fn mul_assign(&mut self, rhs: DVec3)
        ensures
            *final(self) == old(self).mul_spec(rhs),
    {
        *self = DVec3::mul(*self, rhs);
    }
}

impl core::ops::DivAssign for DVec3 {
    fn div_assign(&mut self, rhs: DVec3)
        ensures
            *final(self) == old(self).div_spec(rhs),
    {
        *self = DVec3::div(*self, rhs);
    }
}

impl core::ops::AddAssign<F64> for DVec3 {
    fn add_assign(&mut self, rhs: F64)
        ensures
            *final(self) == old(self).add_scalar_spec(rhs),
    {
        *self = self.add_scalar(rhs);
    }
}

impl core::ops::SubAssign<F64> for DVec3 {
    fn sub_assign(&mut self, rhs: F64)
        ensures
            *final(self) == old(self).sub_scalar_spec(rhs),
    {
        *self = self.sub_scalar(rhs);
    }
}

impl core::ops::MulAssign<F64> for DVec3 {
    fn mul_assign(&mut self, rhs: F64)
        ensures
            *final(self) == old(self).mul_scalar_spec(rhs),
    {
        *self = self.mul_scalar(rhs);
    }
}

impl core::ops::DivAssign<F64> for DVec3 {
    fn div_assign(&mut self, rhs: F64)
        ensures
            *final(self) == old(self).div_scalar_spec(rhs),
    {
        *self = self.div_scalar(rhs);
    }
}

/// A vector of two binary32 components.
#[derive(Clone, Copy, Debug)]
pub struct Vec2 {
    pub x: F32,
    pub y: F32,
}

impl Vec2 {
    /// The vector of zeros.
    pub open spec fn zero_spec() -> Vec2 {
        Vec2 { x: F32 { bits: 0 }, y: F32 { bits: 0 } }
    }

    /// The vector of zeros.
    pub fn zero() -> (r: Vec2)
        ensures
            r == Vec2::zero_spec(),
    {
        Vec2 { x: F32 { bits: 0 }, y: F32 { bits: 0 } }
    }

    /// The vector with the given components.
    pub fn new(x: F32, y: F32) -> (r: Vec2)
        ensures
            r == (Vec2 { x, y }),
    {
        Vec2 { x, y }
    }

    /// The vector with every component `v`.
    pub fn splat(v: F32) -> (r: Vec2)
        ensures
            r == (Vec2 { x: v, y: v }),
    {
        Vec2 { x: v, y: v }
    }

    /// The vector along the x axis: `x` there and zero elsewhere.
    pub fn x(x: F32) -> (r: Vec2)
        ensures
            r == (Vec2 { x, y: F32 { bits: 0 } }),
    {
        Vec2 { x, y: F32 { bits: 0 } }
    }

    /// The vector along the y axis: `y` there and zero elsewhere.
    pub fn y(y: F32) -> (r: Vec2)
        ensures
            r == (Vec2 { x: F32 { bits: 0 }, y }),
    {
        Vec2 { x: F32 { bits: 0 }, y }
    }

    /// The sum, component by component.
    pub open spec fn add_spec(self, rhs: Vec2) -> Vec2 {
        Vec2 { x: self.x.add_spec(rhs.x), y: self.y.add_spec(rhs.y) }
    }

    /// The sum, component by component.
    pub fn add(self, rhs: Vec2) -> (r: Vec2)
        ensures
            r == self.add_spec(rhs),
    {
        Vec2 { x: self.x.add(rhs.x), y: self.y.add(rhs.y) }
    }

    /// The difference, component by component.
    pub open spec fn sub_spec(self, rhs: Vec2) -> Vec2 {
        Vec2 { x: self.x.sub_spec(rhs.x), y: self.y.sub_spec(rhs.y) }
    }

    /// The difference, component by component.
    pub fn sub(self, rhs: Vec2) -> (r: Vec2)
        ensures
            r == self.sub_spec(rhs),
    {
        Vec2 { x: self.x.sub(rhs.x), y: self.y.sub(rhs.y) }
    }

    /// The product, component by component.
    pub open spec fn mul_spec(self, rhs: Vec2) -> Vec2 {
        Vec2 { x: self.x.mul_spec(rhs.x), y: self.y.mul_spec(rhs.y) }
    }

    /// The product, component by component.
    pub fn mul(self, rhs: Vec2) -> (r: Vec2)
        ensures
            r == self.mul_spec(rhs),
    {
        Vec2 { x: self.x.mul(rhs.x), y: self.y.mul(rhs.y) }
    }

    /// The quotient, component by component: a zero divisor gives an infinity or a NaN there.
    pub open spec fn div_spec(self, rhs: Vec2) -> Vec2 {
        Vec2 { x: self.x.div_spec(rhs.x), y: self.y.div_spec(rhs.y) }
    }

    /// The quotient, component by component: a zero divisor gives an infinity or a NaN there.
    pub fn div(self, rhs: Vec2) -> (r: Vec2)
        ensures
            r == self.div_spec(rhs),
    {
        Vec2 { x: self.x.div(rhs.x), y: self.y.div(rhs.y) }
    }

    /// Each component plus `rhs`.
    pub open spec fn add_scalar_spec(self, rhs: F32) -> Vec2 {
        Vec2 { x: self.x.add_spec(rhs), y: self.y.add_spec(rhs) }
    }

    /// Each component plus `rhs`.
    pub fn add_scalar(self, rhs: F32) -> (r: Vec2)
        ensures
            r == self.add_scalar_spec(rhs),
    {
        Vec2 { x: self.x.add(rhs), y: self.y.add(rhs) }
    }

    /// Each component minus `rhs`.
    pub open spec fn sub_scalar_spec(self, rhs: F32) -> Vec2 {
        Vec2 { x: self.x.sub_spec(rhs), y: self.y.sub_spec(rhs) }
    }

    /// Each component minus `rhs`.
    pub fn sub_scalar(self, rhs: F32) -> (r: Vec2)
        ensures
            r == self.sub_scalar_spec(rhs),
    {
        Vec2 { x: self.x.sub(rhs), y: self.y.sub(rhs) }
    }

    /// Each component times `rhs`.
    pub open spec fn mul_scalar_spec(self, rhs: F32) -> Vec2 {
        Vec2 { x: self.x.mul_spec(rhs), y: self.y.mul_spec(rhs) }
    }

    /// Each component times `rhs`.
    pub fn mul_scalar(self, rhs: F32) -> (r: Vec2)
        ensures
            r == self.mul_scalar_spec(rhs),
    {
        Vec2 { x: self.x.mul(rhs), y: self.y.mul(rhs) }
    }

    /// Each component divided by `rhs`.
    pub open spec fn div_scalar_spec(self, rhs: F32) -> Vec2 {
        Vec2 { x: self.x.div_spec(rhs), y: self.y.div_spec(rhs) }
    }

    /// Each component divided by `rhs`.
    pub fn div_scalar(self, rhs: F32) -> (r: Vec2)
        ensures
            r == self.div_scalar_spec(rhs),
    {
        Vec2 { x: self.x.div(rhs), y: self.y.div(rhs) }
    }

    /// The dot product: the products of the components, summed from the first.
    pub open spec fn dot_spec(self, rhs: Vec2) -> F32 {
        self.x.mul_spec(rhs.x).add_spec(self.y.mul_spec(rhs.y))
    }

    /// The dot product.
    pub fn dot(self, rhs: Vec2) -> (r: F32)
        ensures
            r == self.dot_spec(rhs),
    {
        self.x.mul(rhs.x).add(self.y.mul(rhs.y))
    }

    /// The squared length: the dot product with itself.
    pub open spec fn length_squared_spec(self) -> F32 {
        self.dot_spec(self)
    }

    /// The squared length.
    pub fn length_squared(self) -> (r: F32)
        ensures
            r == self.length_squared_spec(),
    {
        self.dot(self)
    }

    /// The length: the square root of the squared length.
    pub open spec fn length_spec(self) -> F32 {
        self.length_squared_spec().sqrt_spec()
    }

    /// The length.
    pub fn length(self) -> (r: F32)
        ensures
            r == self.length_spec(),
    {
        self.length_squared().sqrt()
    }

    /// The components in order.
    pub fn to_array(self) -> (r: [F32; 2])
        ensures
            r[0] == self.x,
            r[1] == self.y,
    {
        [self.x, self.y]
    }

    /// The vector with `z` as one more component.
    pub fn extend(self, z: F32) -> (r: Vec3)
        ensures
            r == (Vec3 { x: self.x, y: self.y, z }),
    {
        Vec3 { x: self.x, y: self.y, z }
    }

    /// The vector with every sign flipped.
    pub open spec fn neg_spec(self) -> Vec2 {
        Vec2 { x: self.x.neg_spec(), y: self.y.neg_spec() }
    }

    /// The vector with every sign flipped.
    pub fn neg(self) -> (r: Vec2)
        ensures
            r == self.neg_spec(),
    {
        Vec2 { x: self.x.neg(), y: self.y.neg() }
    }

    /// The sum of the components, from the first.
    pub open spec fn element_sum_spec(self) -> F32 {
        self.x.add_spec(self.y)
    }

    /// The sum of the components.
    pub fn element_sum(self) -> (r: F32)
        ensures
            r == self.element_sum_spec(),
    {
        self.x.add(self.y)
    }

    /// Each component divided by the length.
    pub open spec fn normalize_spec(self) -> Vec2 {
        self.div_scalar_spec(self.length_spec())
    }

    /// The vector scaled to length one. A vector whose length is zero has no direction
    /// and is left out.
    pub fn normalize(self) -> (r: Vec2)
        requires
            !self.length_spec().zero(),
        ensures
            r == self.normalize_spec(),
    {
        let length = self.length();
        self.div_scalar(length)
    }

    /// The vector scaled to length one, or the zero vector where the length is zero.
    pub open spec fn normalize_or_zero_spec(self) -> Vec2 {
        if self.length_spec().zero() {
            Vec2::zero_spec()
        } else {
            self.normalize_spec()
        }
    }

    /// The vector scaled to length one, or the zero vector where the length is zero.
    pub fn normalize_or_zero(self) -> (r: Vec2)
        ensures
            r == self.normalize_or_zero_spec(),
    {
        let length = self.length();
        if length.is_zero() {
            Vec2::zero()
        } else {
            self.div_scalar(length)
        }
    }

    /// Widens every component to binary64.
    pub fn to_dvec2(self) -> (r: DVec2)
        ensures
            r == (DVec2 { x: self.x.to_double_spec(), y: self.y.to_double_spec() }),
    {
        DVec2 { x: self.x.to_double(), y: self.y.to_double() }
    }

    /// The cross product of two plane vectors: `x * rhs.y - y * rhs.x`.
    pub open spec fn cross_spec(self, rhs: Vec2) -> F32 {
        self.x.mul_spec(rhs.y).sub_spec(self.y.mul_spec(rhs.x))
    }

    /// The cross product of two plane vectors.
    pub fn cross(self, rhs: Vec2) -> (r: F32)
        ensures
            r == self.cross_spec(rhs),
    {
        self.x.mul(rhs.y).sub(self.y.mul(rhs.x))
    }

    /// Whether no component is a NaN.
    pub open spec fn no_nan(self) -> bool {
        !self.x.nan() && !self.y.nan()
    }

    /// Equality of vectors: every pair of components holds equal numbers.
    pub open spec fn equal(self, rhs: Vec2) -> bool {
        self.x.equal(rhs.x) && self.y.equal(rhs.y)
    }
}

impl PartialEq for Vec2 {
    fn eq(&self, other: &Vec2) -> (r: bool) {
        self.x == other.x && self.y == other.y
    }
}

impl PartialEqSpecImpl for Vec2 {
    open spec fn obeys_eq_spec() -> bool {
        true
    }

    open spec fn eq_spec(&self, other: &Vec2) -> bool {
        self.equal(*other)
    }
}

impl Default for Vec2 {
    fn default() -> (r: Vec2)
        ensures
            r == Vec2::zero_spec(),
    {
        Vec2::zero()
    }
}

impl core::ops::Add for Vec2 {
    type Output = Vec2;

    fn add(self, rhs: Vec2) -> (r: Vec2) {
        Vec2::add(self, rhs)
    }
}

impl vstd::std_specs::ops::AddSpecImpl for Vec2 {
    open spec fn obeys_add_spec() -> bool {
        true
    }

    open spec fn add_req(self, rhs: Vec2) -> bool {
        true
    }

    open spec fn add_spec(self, rhs: Vec2) -> Vec2 {
        Vec2::add_spec(self, rhs)
    }
}

impl core::ops::Sub for Vec2 {
    type Output = Vec2;

    fn sub(self, rhs: Vec2) -> (r: Vec2) {
        Vec2::sub(self, rhs)
    }
}

impl vstd::std_specs::ops::SubSpecImpl for Vec2 {
    open spec fn obeys_sub_spec() -> bool {
        true
    }

    open spec fn sub_req(self, rhs: Vec2) -> bool {
        true
    }

    open spec fn sub_spec(self, rhs: Vec2) -> Vec2 {
        Vec2::sub_spec(self, rhs)
    }
}

impl core::ops::Mul for Vec2 {
    type Output = Vec2;

    fn mul(self, rhs: Vec2) -> (r: Vec2) {
        Vec2::mul(self, rhs)
    }
}

impl vstd::std_specs::ops::MulSpecImpl for Vec2 {
    open spec fn obeys_mul_spec() -> bool {
        true
    }

    open spec fn mul_req(self, rhs: Vec2) -> bool {
        true
    }

    open spec fn mul_spec(self, rhs: Vec2) -> Vec2 {
        Vec2::mul_spec(self, rhs)
    }
}

impl core::ops::Div for Vec2 {
    type Output = Vec2;

    fn div(self, rhs: Vec2) -> (r: Vec2) {
        Vec2::div(self, rhs)
    }
}

impl vstd::std_specs::ops::DivSpecImpl for Vec2 {
    open spec fn obeys_div_spec() -> bool {
        true
    }

    open spec fn div_req(self, rhs: Vec2) -> bool {
        true
    }

    open spec fn div_spec(self, rhs: Vec2) -> Vec2 {
        Vec2::div_spec(self, rhs)
    }
}

impl core::ops::Add<F32> for Vec2 {
    type Output = Vec2;

    fn add(self, rhs: F32) -> (r: Vec2) {
        self.add_scalar(rhs)
    }
}

impl vstd::std_specs::ops::AddSpecImpl<F32> for Vec2 {
    open spec fn obeys_add_spec() -> bool {
        true
    }

    open spec fn add_req(self, rhs: F32) -> bool {
        true
    }

    open spec fn add_spec(self, rhs: F32) -> Vec2 {
        self.add_scalar_spec(rhs)
    }
}

impl core::ops::Sub<F32> for Vec2 {
    type Output = Vec2;

    fn sub(self, rhs: F32) -> (r: Vec2) {
        self.sub_scalar(rhs)
    }
}

impl vstd::std_specs::ops::SubSpecImpl<F32> for Vec2 {
    open spec fn obeys_sub_spec() -> bool {
        true
    }

    open spec fn sub_req(self, rhs: F32) -> bool {
        true
    }

    open spec fn sub_spec(self, rhs: F32) -> Vec2 {
        self.sub_scalar_spec(rhs)
    }
}

impl core::ops::Mul<F32> for Vec2 {
    type Output = Vec2;

    fn mul(self, rhs: F32) -> (r: Vec2) {
        self.mul_scalar(rhs)
    }
}

impl vstd::std_specs::ops::MulSpecImpl<F32> for Vec2 {
    open spec fn obeys_mul_spec() -> bool {
        true
    }

    open spec fn mul_req(self, rhs: F32) -> bool {
        true
    }

    open spec fn mul_spec(self, rhs: F32) -> Vec2 {
        self.mul_scalar_spec(rhs)
    }
}

impl core::ops::Div<F32> for Vec2 {
    type Output = Vec2;

    fn div(self, rhs: F32) -> (r: Vec2) {
        self.div_scalar(rhs)
    }
}

impl vstd::std_specs::ops::DivSpecImpl<F32> for Vec2 {
    open spec fn obeys_div_spec() -> bool {
        true
    }

    open spec fn div_req(self, rhs: F32) -> bool {
        true
    }

    open spec fn div_spec(self, rhs: F32) -> Vec2 {
        self.div_scalar_spec(rhs)
    }
}

impl core::ops::Neg for Vec2 {
    type Output = Vec2;

    fn neg(self) -> (r: Vec2) {
        Vec2::neg(self)
    }
}

impl vstd::std_specs::ops::NegSpecImpl for Vec2 {
    open spec fn obeys_neg_spec() -> bool {
        true
    }

    open spec fn neg_req(self) -> bool {
        true
    }

    open spec fn neg_spec(self) -> Vec2 {
        Vec2::neg_spec(self)
    }
}

impl core::ops::AddAssign for Vec2 {
    fn add_assign(&mut self, rhs: Vec2)
        ensures
            *final(self) == old(self).add_spec(rhs),
    {
        *self = Vec2::add(*self, rhs);
    }
}

impl core::ops::SubAssign for Vec2 {
    fn sub_assign(&mut self, rhs: Vec2)
        ensures
            *final(self) == old(self).sub_spec(rhs),
    {
        *self = Vec2::sub(*self, rhs);
    }
}

impl core::ops::MulAssign for Vec2 {
    fn mul_assign(&mut self, rhs: Vec2)
        ensures
            *final(self) == old(self).mul_spec(rhs),
    {
        *self = Vec2::mul(*self, rhs);
    }
}

impl core::ops::DivAssign for Vec2 {
    fn div_assign(&mut self, rhs: Vec2)
        ensures
            *final(self) == old(self).div_spec(rhs),
    {
        *self = Vec2::div(*self, rhs);
    }
}

impl core::ops::AddAssign<F32> for Vec2 {
    fn add_assign(&mut self, rhs: F32)
        ensures
            *final(self) == old(self).add_scalar_spec(rhs),
    {
        *self = self.add_scalar(rhs);
    }
}

impl core::ops::SubAssign<F32> for Vec2 {
    fn sub_assign(&mut self, rhs: F32)
        ensures
            *final(self) == old(self).sub_scalar_spec(rhs),
    {
        *self = self.sub_scalar(rhs);
    }
}

impl core::ops::MulAssign<F32> for Vec2 {
    fn mul_assign(&mut self, rhs: F32)
        ensures
            *final(self) == old(self).mul_scalar_spec(rhs),
    {
        *self = self.mul_scalar(rhs);
    }
}

impl core::ops::DivAssign<F32> for Vec2 {
    fn div_assign(&mut self, rhs: F32)
        ensures
            *final(self) == old(self).div_scalar_spec(rhs),
    {
        *self = self.div_scalar(rhs);
    }
}

/// A vector of two binary64 components.
#[derive(Clone, Copy, Debug)]
pub struct DVec2 {
    pub x: F64,
    pub y: F64,
}

impl DVec2 {
    /// The vector of zeros.
    pub open spec fn zero_spec() -> DVec2 {
        DVec2 { x: F64 { bits: 0 }, y: F64 { bits: 0 } }
    }

    /// The vector of zeros.
    pub fn zero() -> (r: DVec2)
        ensures
            r == DVec2::zero_spec(),
    {
        DVec2 { x: F64 { bits: 0 }, y: F64 { bits: 0 } }
    }

    /// The vector with the given components.
    pub fn new(x: F64, y: F64) -> (r: DVec2)
        ensures
            r == (DVec2 { x, y }),
    {
        DVec2 { x, y }
    }

    /// The vector with every component `v`.
    pub fn splat(v: F64) -> (r: DVec2)
        ensures
            r == (DVec2 { x: v, y: v }),
    {
        DVec2 { x: v, y: v }
    }

    /// The vector along the x axis: `x` there and zero elsewhere.
    pub fn x(x: F64) -> (r: DVec2)
        ensures
            r == (DVec2 { x, y: F64 { bits: 0 } }),
    {
        DVec2 { x, y: F64 { bits: 0 } }
    }

    /// The vector along the y axis: `y` there and zero elsewhere.
    pub fn y(y: F64) -> (r: DVec2)
        ensures
            r == (DVec2 { x: F64 { bits: 0 }, y }),
    {
        DVec2 { x: F64 { bits: 0 }, y }
    }

    /// The sum, component by component.
    pub open spec fn add_spec(self, rhs: DVec2) -> DVec2 {
        DVec2 { x: self.x.add_spec(rhs.x), y: self.y.add_spec(rhs.y) }
    }

    /// The sum, component by component.
    pub fn add(self, rhs: DVec2) -> (r: DVec2)
        ensures
            r == self.add_spec(rhs),
    {
        DVec2 { x: self.x.add(rhs.x), y: self.y.add(rhs.y) }
    }

    /// The difference, component by component.
    pub open spec fn sub_spec(self, rhs: DVec2) -> DVec2 {
        DVec2 { x: self.x.sub_spec(rhs.x), y: self.y.sub_spec(rhs.y) }
    }

    /// The difference, component by component.
    pub fn sub(self, rhs: DVec2) -> (r: DVec2)
        ensures
            r == self.sub_spec(rhs),
    {
        DVec2 { x: self.x.sub(rhs.x), y: self.y.sub(rhs.y) }
    }

    /// The product, component by component.
    pub open spec fn mul_spec(self, rhs: DVec2) -> DVec2 {
        DVec2 { x: self.x.mul_spec(rhs.x), y: self.y.mul_spec(rhs.y) }
    }

    /// The product, component by component.
    pub fn mul(self, rhs: DVec2) -> (r: DVec2)
        ensures
            r == self.mul_spec(rhs),
    {
        DVec2 { x: self.x.mul(rhs.x), y: self.y.mul(rhs.y) }
    }

    /// The quotient, component by component: a zero divisor gives an infinity or a NaN there.
    pub open spec fn div_spec(self, rhs: DVec2) -> DVec2 {
        DVec2 { x: self.x.div_spec(rhs.x), y: self.y.div_spec(rhs.y) }
    }

    /// The quotient, component by component: a zero divisor gives an infinity or a NaN there.
    pub fn div(self, rhs: DVec2) -> (r: DVec2)
        ensures
            r == self.div_spec(rhs),
    {
        DVec2 { x: self.x.div(rhs.x), y: self.y.div(rhs.y) }
    }

    /// Each component plus `rhs`.
    pub open spec fn add_scalar_spec(self, rhs: F64) -> DVec2 {
        DVec2 { x: self.x.add_spec(rhs), y: self.y.add_spec(rhs) }
    }

    /// Each component plus `rhs`.
    pub fn add_scalar(self, rhs: F64) -> (r: DVec2)
        ensures
            r == self.add_scalar_spec(rhs),
    {
        DVec2 { x: self.x.add(rhs), y: self.y.add(rhs) }
    }

    /// Each component minus `rhs`.
    pub open spec fn sub_scalar_spec(self, rhs: F64) -> DVec2 {
        DVec2 { x: self.x.sub_spec(rhs), y: self.y.sub_spec(rhs) }
    }

    /// Each component minus `rhs`.
    pub fn sub_scalar(self, rhs: F64) -> (r: DVec2)
        ensures
            r == self.sub_scalar_spec(rhs),
    {
        DVec2 { x: self.x.sub(rhs), y: self.y.sub(rhs) }
    }

    /// Each component times `rhs`.
    pub open spec fn mul_scalar_spec(self, rhs: F64) -> DVec2 {
        DVec2 { x: self.x.mul_spec(rhs), y: self.y.mul_spec(rhs) }
    }

    /// Each component times `rhs`.
    pub fn mul_scalar(self, rhs: F64) -> (r: DVec2)
        ensures
            r == self.mul_scalar_spec(rhs),
    {
        DVec2 { x: self.x.mul(rhs), y: self.y.mul(rhs) }
    }

    /// Each component divided by `rhs`.
    pub open spec fn div_scalar_spec(self, rhs: F64) -> DVec2 {
        DVec2 { x: self.x.div_spec(rhs), y: self.y.div_spec(rhs) }
    }

    /// Each component divided by `rhs`.
    pub fn div_scalar(self, rhs: F64) -> (r: DVec2)
        ensures
            r == self.div_scalar_spec(rhs),
    {
        DVec2 { x: self.x.div(rhs), y: self.y.div(rhs) }
    }

    /// The dot product: the products of the components, summed from the first.
    pub open spec fn dot_spec(self, rhs: DVec2) -> F64 {
        self.x.mul_spec(rhs.x).add_spec(self.y.mul_spec(rhs.y))
    }

    /// The dot product.
    pub fn dot(self, rhs: DVec2) -> (r: F64)
        ensures
            r == self.dot_spec(rhs),
    {
        self.x.mul(rhs.x).add(self.y.mul(rhs.y))
    }

    /// The squared length: the dot product with itself.
    pub open spec fn length_squared_spec(self) -> F64 {
        self.dot_spec(self)
    }

    /// The squared length.
    pub fn length_squared(self) -> (r: F64)
        ensures
            r == self.length_squared_spec(),
    {
        self.dot(self)
    }

    /// The length: the square root of the squared length.
    pub open spec fn length_spec(self) -> F64 {
        self.length_squared_spec().sqrt_spec()
    }

    /// The length.
    pub fn length(self) -> (r: F64)
        ensures
            r == self.length_spec(),
    {
        self.length_squared().sqrt()
    }

    /// The components in order.
    pub fn to_array(self) -> (r: [F64; 2])
        ensures
            r[0] == self.x,
            r[1] == self.y,
    {
        [self.x, self.y]
    }

    /// The vector with `z` as one more component.
    pub fn extend(self, z: F64) -> (r: DVec3)
        ensures
            r == (DVec3 { x: self.x, y: self.y, z }),
    {
        DVec3 { x: self.x, y: self.y, z }
    }

    /// The vector with every sign flipped.
    pub open spec fn neg_spec(self) -> DVec2 {
        DVec2 { x: self.x.neg_spec(), y: self.y.neg_spec() }
    }

    /// The vector with every sign flipped.
    pub fn neg(self) -> (r: DVec2)
        ensures
            r == self.neg_spec(),
    {
        DVec2 { x: self.x.neg(), y: self.y.neg() }
    }

    /// The sum of the components, from the first.
    pub open spec fn element_sum_spec(self) -> F64 {
        self.x.add_spec(self.y)
    }

    /// The sum of the components.
    pub fn element_sum(self) -> (r: F64)
        ensures
            r == self.element_sum_spec(),
    {
        self.x.add(self.y)
    }

    /// Each component divided by the length.
    pub open spec fn normalize_spec(self) -> DVec2 {
        self.div_scalar_spec(self.length_spec())
    }

    /// The vector scaled to length one. A vector whose length is zero has no direction
    /// and is left out.
    pub fn normalize(self) -> (r: DVec2)
        requires
            !self.length_spec().zero(),
        ensures
            r == self.normalize_spec(),
    {
        let length = self.length();
        self.div_scalar(length)
    }

    /// The vector scaled to length one, or the zero vector where the length is zero.
    pub open spec fn normalize_or_zero_spec(self) -> DVec2 {
        if self.length_spec().zero() {
            DVec2::zero_spec()
        } else {
            self.normalize_spec()
        }
    }

    /// The vector scaled to length one, or the zero vector where the length is zero.
    pub fn normalize_or_zero(self) -> (r: DVec2)
        ensures
            r == self.normalize_or_zero_spec(),
    {
        let length = self.length();
        if length.is_zero() {
            DVec2::zero()
        } else {
            self.div_scalar(length)
        }
    }

    /// Narrows every component to binary32, rounding to nearest.
    pub fn to_vec2(self) -> (r: Vec2)
        ensures
            r == (Vec2 { x: self.x.to_single_spec(), y: self.y.to_single_spec() }),
    {
        Vec2 { x: self.x.to_single(), y: self.y.to_single() }
    }

    /// The cross product of two plane vectors: `x * rhs.y - y * rhs.x`.
    pub open spec fn cross_spec(self, rhs: DVec2) -> F64 {
        self.x.mul_spec(rhs.y).sub_spec(self.y.mul_spec(rhs.x))
    }

    /// The cross product of two plane vectors.
    pub fn cross(self, rhs: DVec2) -> (r: F64)
        ensures
            r == self.cross_spec(rhs),
    {
        self.x.mul(rhs.y).sub(self.y.mul(rhs.x))
    }

    /// Equality of vectors: every pair of components holds equal numbers.
    pub open spec fn equal(self, rhs: DVec2) -> bool {
        self.x.equal(rhs.x) && self.y.equal(rhs.y)
    }
}

impl PartialEq for DVec2 {
    fn eq(&self, other: &DVec2) -> (r: bool) {
        self.x == other.x && self.y == other.y
    }
}

impl PartialEqSpecImpl for DVec2 {
    open spec fn obeys_eq_spec() -> bool {
        true
    }

    open spec fn eq_spec(&self, other: &DVec2) -> bool {
        self.equal(*other)
    }
}

impl Default for DVec2 {
    fn default() -> (r: DVec2)
        ensures
            r == DVec2::zero_spec(),
    {
        DVec2::zero()
    }
}

impl core::ops::Add for DVec2 {
    type Output = DVec2;

    fn add(self, rhs: DVec2) -> (r: DVec2) {
        DVec2::add(self, rhs)
    }
}

impl vstd::std_specs::ops::AddSpecImpl for DVec2 {
    open spec fn obeys_add_spec() -> bool {
        true
    }

    open spec fn add_req(self, rhs: DVec2) -> bool {
        true
    }

    open spec fn add_spec(self, rhs: DVec2) -> DVec2 {
        DVec2::add_spec(self, rhs)
    }
}

impl core::ops::Sub for DVec2 {
    type Output = DVec2;

    fn sub(self, rhs: DVec2) -> (r: DVec2) {
        DVec2::sub(self, rhs)
    }
}

impl vstd::std_specs::ops::SubSpecImpl for DVec2 {
    open spec fn obeys_sub_spec() -> bool {
        true
    }

    open spec fn sub_req(self, rhs: DVec2) -> bool {
        true
    }

    open spec fn sub_spec(self, rhs: DVec2) -> DVec2 {
        DVec2::sub_spec(self, rhs)
    }
}

impl core::ops::Mul for DVec2 {
    type Output = DVec2;

    fn mul(self, rhs: DVec2) -> (r: DVec2) {
        DVec2::mul(self, rhs)
    }
}

impl vstd::std_specs::ops::MulSpecImpl for DVec2 {
    open spec fn obeys_mul_spec() -> bool {
        true
    }

    open spec fn mul_req(self, rhs: DVec2) -> bool {
        true
    }

    open spec fn mul_spec(self, rhs: DVec2) -> DVec2 {
        DVec2::mul_spec(self, rhs)
    }
}

impl core::ops::Div for DVec2 {
    type Output = DVec2;

    fn div(self, rhs: DVec2) -> (r: DVec2) {
        DVec2::div(self, rhs)
    }
}

impl vstd::std_specs::ops::DivSpecImpl for DVec2 {
    open spec fn obeys_div_spec() -> bool {
        true
    }

    open spec fn div_req(self, rhs: DVec2) -> bool {
        true
    }

    open spec fn div_spec(self, rhs: DVec2) -> DVec2 {
        DVec2::div_spec(self, rhs)
    }
}

impl core::ops::Add<F64> for DVec2 {
    type Output = DVec2;

    fn add(self, rhs: F64) -> (r: DVec2) {
        self.add_scalar(rhs)
    }
}

impl vstd::std_specs::ops::AddSpecImpl<F64> for DVec2 {
    open spec fn obeys_add_spec() -> bool {
        true
    }

    open spec fn add_req(self, rhs: F64) -> bool {
        true
    }

    open spec fn add_spec(self, rhs: F64) -> DVec2 {
        self.add_scalar_spec(rhs)
    }
}

impl core::ops::Sub<F64> for DVec2 {
    type Output = DVec2;

    fn sub(self, rhs: F64) -> (r: DVec2) {
        self.sub_scalar(rhs)
    }
}

impl vstd::std_specs::ops::SubSpecImpl<F64> for DVec2 {
    open spec fn obeys_sub_spec() -> bool {
        true
    }

    open spec fn sub_req(self, rhs: F64) -> bool {
        true
    }

    open spec fn sub_spec(self, rhs: F64) -> DVec2 {
        self.sub_scalar_spec(rhs)
    }
}

impl core::ops::Mul<F64> for DVec2 {
    type Output = DVec2;

    fn mul(self, rhs: F64) -> (r: DVec2) {
        self.mul_scalar(rhs)
    }
}

impl vstd::std_specs::ops::MulSpecImpl<F64> for DVec2 {
    open spec fn obeys_mul_spec() -> bool {
        true
    }

    open spec fn mul_req(self, rhs: F64) -> bool {
        true
    }

    open spec fn mul_spec(self, rhs: F64) -> DVec2 {
        self.mul_scalar_spec(rhs)
    }
}

impl core::ops::Div<F64> for DVec2 {
    type Output = DVec2;

    fn div(self, rhs: F64) -> (r: DVec2) {
        self.div_scalar(rhs)
    }
}

impl vstd::std_specs::ops::DivSpecImpl<F64> for DVec2 {
    open spec fn obeys_div_spec() -> bool {
        true
    }

    open spec fn div_req(self, rhs: F64) -> bool {
        true
    }

    open spec fn div_spec(self, rhs: F64) -> DVec2 {
        self.div_scalar_spec(rhs)
    }
}

impl core::ops::Neg for DVec2 {
    type Output = DVec2;

    fn neg(self) -> (r: DVec2) {
        DVec2::neg(self)
    }
}

impl vstd::std_specs::ops::NegSpecImpl for DVec2 {
    open spec fn obeys_neg_spec() -> bool {
        true
    }

    open spec fn neg_req(self) -> bool {
        true
    }

    open spec fn neg_spec(self) -> DVec2 {
        DVec2::neg_spec(self)
    }
}

impl core::ops::AddAssign for DVec2 {
    fn add_assign(&mut self, rhs: DVec2)
        ensures
            *final(self) == old(self).add_spec(rhs),
    {
        *self = DVec2::add(*self, rhs);
    }
}

impl core::ops::SubAssign for DVec2 {
    fn sub_assign(&mut self, rhs: DVec2)
        ensures
            *final(self) == old(self).sub_spec(rhs),
    {
        *self = DVec2::sub(*self, rhs);
    }
}

impl core::ops::MulAssign for DVec2 {
    fn mul_assign(&mut self, rhs: DVec2)
        ensures
            *final(self) == old(self).mul_spec(rhs),
    {
        *self = DVec2::mul(*self, rhs);
    }
}

impl core::ops::DivAssign for DVec2 {
    fn div_assign(&mut self, rhs: DVec2)
        ensures
            *final(self) == old(self).div_spec(rhs),
    {
        *self = DVec2::div(*self, rhs);
    }
}

impl core::ops::AddAssign<F64> for DVec2 {
    fn add_assign(&mut self, rhs: F64)
        ensures
            *final(self) == old(self).add_scalar_spec(rhs),
    {
        *self = self.add_scalar(rhs);
    }
}

impl core::ops::SubAssign<F64> for DVec2 {
    fn sub_assign(&mut self, rhs: F64)
        ensures
            *final(self) == old(self).sub_scalar_spec(rhs),
    {
        *self = self.sub_scalar(rhs);
    }
}

impl core::ops::MulAssign<F64> for DVec2 {
    fn mul_assign(&mut self, rhs: F64)
        ensures
            *final(self) == old(self).mul_scalar_spec(rhs),
    {
        *self = self.mul_scalar(rhs);
    }
}

impl core::ops::DivAssign<F64> for DVec2 {
    fn div_assign(&mut self, rhs: F64)
        ensures
            *final(self) == old(self).div_scalar_spec(rhs),
    {
        *self = self.div_scalar(rhs);
    }
}

/// Sums and dot products do not depend on the order of their two vectors.
pub proof fn lemma_vectors_commute(a: Vec3, b: Vec3)
    ensures
        a.add_spec(b) == b.add_spec(a),
        a.mul_spec(b) == b.mul_spec(a),
        a.dot_spec(b) == b.dot_spec(a),
{
    lemma_add_commutes(a.x, b.x);
    lemma_add_commutes(a.y, b.y);
    lemma_add_commutes(a.z, b.z);
    lemma_mul_commutes(a.x, b.x);
    lemma_mul_commutes(a.y, b.y);
    lemma_mul_commutes(a.z, b.z);
}

/// Equality of vectors without a NaN is an equivalence.
pub proof fn lemma_vectors_equal(a: Vec3, b: Vec3, c: Vec3)
    ensures
        a.no_nan() ==> a.equal(a),
        a.equal(b) ==> b.equal(a) && a.no_nan() && b.no_nan(),
        a.equal(b) && b.equal(c) ==> a.equal(c),
{
}

} // verus!
