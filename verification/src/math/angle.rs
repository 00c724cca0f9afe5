//! Angles as the transforms read them.
//!
//! The library takes no sine itself: whoever builds an `Angle` supplies the sine and the
//! cosine with the radians, and every contract that turns a vector says what is done
//! with the two numbers given.

use crate::double::F64;
use crate::single::F32;
use vstd::prelude::*;

verus! {

/// An angle in radians, with its sine and cosine.
#[derive(Clone, Copy, Debug)]
pub struct Angle {
    pub radians: F32,
    pub sin: F32,
    pub cos: F32,
}

/// An angle in radians with its sine and cosine, in binary64.
#[derive(Clone, Copy, Debug)]
pub struct DAngle {
    pub radians: F64,
    pub sin: F64,
    pub cos: F64,
}

/// Turns about the three axes: pitch about x, yaw about y, roll about z.
#[derive(Clone, Copy, Debug)]
pub struct Rotation {
    pub x: Angle,
    pub y: Angle,
    pub z: Angle,
}

impl Angle {
    /// The angle of the given radians, with the sine and the cosine that were taken of them.
    pub fn new(radians: F32, sin: F32, cos: F32) -> (r: Angle)
        ensures
            r == (Angle { radians, sin, cos }),
    {
        Angle { radians, sin, cos }
    }

    /// The angle of no turn: zero radians, sine 0 and cosine 1.
    pub open spec fn zero_spec() -> Angle {
        Angle { radians: F32 { bits: 0 }, sin: F32 { bits: 0 }, cos: F32 { bits: 0x3f80_0000 } }
    }

    /// The angle of no turn.
    pub fn zero() -> (r: Angle)
        ensures
            r == Angle::zero_spec(),
    {
        Angle { radians: F32 { bits: 0 }, sin: F32 { bits: 0 }, cos: F32 { bits: 0x3f80_0000 } }
    }
}

impl DAngle {
    /// The angle of the given radians, with the sine and the cosine that were taken of them.
    pub fn new(radians: F64, sin: F64, cos: F64) -> (r: DAngle)
        ensures
            r == (DAngle { radians, sin, cos }),
    {
        DAngle { radians, sin, cos }
    }
}

impl Rotation {
    /// The turns by `x` about the x axis, `y` about the y axis and `z` about the z axis.
    pub fn new(x: Angle, y: Angle, z: Angle) -> (r: Rotation)
        ensures
            r == (Rotation { x, y, z }),
    {
        Rotation { x, y, z }
    }

    /// No turn about any axis.
    pub fn zero() -> (r: Rotation)
        ensures
            r == (Rotation { x: Angle::zero_spec(), y: Angle::zero_spec(), z: Angle::zero_spec() }),
    {
        Rotation { x: Angle::zero(), y: Angle::zero(), z: Angle::zero() }
    }
}

} // verus!
