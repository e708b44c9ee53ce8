//! Vectors of two and three scalars. The library moves them about and reads
//! their components; it does no arithmetic on them.

use vstd::prelude::*;
use crate::scalar::Scalar;

verus! {

#[derive(Debug, Clone, Copy, PartialEq, Eq, Structural)]
pub struct Vec2 {
    pub x: Scalar,
    pub y: Scalar,
}

#[derive(Debug, Clone, Copy, PartialEq, Eq, Structural)]
pub struct Vec3 {
    pub x: Scalar,
    pub y: Scalar,
    pub z: Scalar,
}

impl Vec2 {
    pub fn new(x: Scalar, y: Scalar) -> (v: Vec2)
        ensures
            v == (Vec2 { x, y }),
    {
        Vec2 { x, y }
    }

    /// The vector whose components are the numbers with these bit patterns.
    pub open spec fn of_bits(x: u32, y: u32) -> Vec2 {
        Vec2 { x: Scalar { bits: x }, y: Scalar { bits: y } }
    }

    pub fn from_bits(x: u32, y: u32) -> (v: Vec2)
        ensures
            v == Vec2::of_bits(x, y),
    {
        Vec2 { x: Scalar { bits: x }, y: Scalar { bits: y } }
    }
}

impl Vec3 {
    pub fn new(x: Scalar, y: Scalar, z: Scalar) -> (v: Vec3)
        ensures
            v == (Vec3 { x, y, z }),
    {
        Vec3 { x, y, z }
    }

    /// The vector whose components are the numbers with these bit patterns.
    pub open spec fn of_bits(x: u32, y: u32, z: u32) -> Vec3 {
        Vec3 { x: Scalar { bits: x }, y: Scalar { bits: y }, z: Scalar { bits: z } }
    }

    pub fn from_bits(x: u32, y: u32, z: u32) -> (v: Vec3)
        ensures
            v == Vec3::of_bits(x, y, z),
    {
        Vec3 { x: Scalar { bits: x }, y: Scalar { bits: y }, z: Scalar { bits: z } }
    }
}

} // verus!
