//! Vectors and rays as the library carries them.
//!
//! The library never does arithmetic on coordinates: it stores them, hands
//! them back and compares them for identity. A coordinate is therefore kept
//! as the bit pattern of a single-precision number, which the embedding
//! application converts to and from its own vector types.

use vstd::prelude::*;

verus! {

/// A 2D vector: the bit patterns of its two single-precision coordinates.
#[derive(Debug, Clone, Copy, PartialEq, Eq, Hash, Structural)]
pub struct Vec2 {
    pub x: u32,
    pub y: u32,
}

impl Vec2 {
    pub fn new(x: u32, y: u32) -> (v: Vec2)
        ensures
            v == (Vec2 { x, y }),
    {
        Vec2 { x, y }
    }
}

/// A 3D vector: the bit patterns of its three single-precision coordinates.
#[derive(Debug, Clone, Copy, PartialEq, Eq, Hash, Structural)]
pub struct Vec3 {
    pub x: u32,
    pub y: u32,
    pub z: u32,
}

impl Vec3 {
    pub fn new(x: u32, y: u32, z: u32) -> (v: Vec3)
        ensures
            v == (Vec3 { x, y, z }),
    {
        Vec3 { x, y, z }
    }
}

/// A ray: the point it starts from and the direction it travels in.
///
/// The direction need not have unit length. The same type describes a hit:
/// its origin is then the point that was hit and its direction the surface
/// normal there.
#[derive(Debug, Clone, Copy, PartialEq, Eq, Hash, Structural)]
pub struct Ray3D {
    pub origin: Vec3,
    pub direction: Vec3,
}

impl Ray3D {
    pub fn new(origin: Vec3, direction: Vec3) -> (ray: Ray3D)
        ensures
            ray == (Ray3D { origin, direction }),
    {
        Ray3D { origin, direction }
    }

    pub fn origin(&self) -> (origin: &Vec3)
        ensures
            *origin == self.origin,
    {
        &self.origin
    }

    pub fn direction(&self) -> (direction: &Vec3)
        ensures
            *direction == self.direction,
    {
        &self.direction
    }
}

} // verus!
