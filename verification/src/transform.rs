//! Placement of things in the world, as it travels between the network, the
//! scene files and the game. Every coordinate is an IEEE-754 single-precision
//! number held by its bit pattern, so that the library moves them untouched;
//! arithmetic on them happens where they become floats again.

use vstd::prelude::*;

verus! {

/// Three single-precision numbers, each held by its IEEE-754 bit pattern.
#[derive(Clone, Copy, Debug, PartialEq, Eq, Structural)]
pub struct Vec3Bits {
    pub x: u32,
    pub y: u32,
    pub z: u32,
}

impl View for Vec3Bits {
    type V = Vec3Bits;

    open spec fn view(&self) -> Vec3Bits {
        *self
    }
}

impl Vec3Bits {
    /// The vector whose three components are `0.0`.
    pub fn zero() -> (r: Vec3Bits)
        ensures
            r == (Vec3Bits { x: 0, y: 0, z: 0 }),
    {
        Vec3Bits { x: 0, y: 0, z: 0 }
    }

    /// The vector whose three components are `1.0` (bit pattern `0x3F80_0000`).
    pub fn one() -> (r: Vec3Bits)
        ensures
            r == (Vec3Bits { x: ONE_BITS, y: ONE_BITS, z: ONE_BITS }),
    {
        Vec3Bits { x: ONE_BITS, y: ONE_BITS, z: ONE_BITS }
    }
}

/// The bit pattern of the single-precision number `1.0`.
pub const ONE_BITS: u32 = 0x3F80_0000u32;

/// Position, rotation (radians) and scale of an object.
#[derive(Clone, Copy, Debug, PartialEq, Eq, Structural)]
pub struct Transform {
    pub position: Vec3Bits,
    pub rotation: Vec3Bits,
    pub scale: Vec3Bits,
}

impl Transform {
    /// The transform whose components are all `0.0`.
    pub fn zero() -> (r: Transform)
        ensures
            r.position == Vec3Bits::spec_zero(),
            r.rotation == Vec3Bits::spec_zero(),
            r.scale == Vec3Bits::spec_zero(),
    {
        Transform { position: Vec3Bits::zero(), rotation: Vec3Bits::zero(), scale: Vec3Bits::zero() }
    }

    /// A transform from its three parts.
    pub fn new(position: Vec3Bits, rotation: Vec3Bits, scale: Vec3Bits) -> (r: Transform)
        ensures
            r.position == position,
            r.rotation == rotation,
            r.scale == scale,
    {
        Transform { position, rotation, scale }
    }
}

impl Vec3Bits {
    pub open spec fn spec_zero() -> Vec3Bits {
        Vec3Bits { x: 0, y: 0, z: 0 }
    }
}

} // verus!
