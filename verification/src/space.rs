//! Carriers for positions, directions and orientations.
//!
//! Each coordinate is the 32-bit encoding of a single-precision number. The
//! library stores, copies and compares these encodings but never does
//! arithmetic on them: all numeric work happens outside, on decoded values.

use vstd::prelude::*;

verus! {

/// A location in space, one encoded coordinate per axis.
#[derive(Clone, Copy, Debug, PartialEq, Eq, Hash, Structural)]
pub struct Point3 {
    pub x: u32,
    pub y: u32,
    pub z: u32,
}

/// A displacement or direction, one encoded coordinate per axis.
#[derive(Clone, Copy, Debug, PartialEq, Eq, Hash, Structural)]
pub struct Vector3 {
    pub x: u32,
    pub y: u32,
    pub z: u32,
}

/// An orientation: encoded scalar part `s` and vector part `(x, y, z)`.
#[derive(Clone, Copy, Debug, PartialEq, Eq, Hash, Structural)]
pub struct Quaternion {
    pub s: u32,
    pub x: u32,
    pub y: u32,
    pub z: u32,
}

impl Point3 {
    pub fn new(x: u32, y: u32, z: u32) -> (p: Point3)
        ensures
            p == (Point3 { x, y, z }),
    {
        Point3 { x, y, z }
    }
}

impl Vector3 {
    pub fn new(x: u32, y: u32, z: u32) -> (v: Vector3)
        ensures
            v == (Vector3 { x, y, z }),
    {
        Vector3 { x, y, z }
    }

    /// The vector whose three coordinates all encode zero.
    pub fn zero() -> (v: Vector3)
        ensures
            v == (Vector3 { x: 0, y: 0, z: 0 }),
    {
        Vector3 { x: 0, y: 0, z: 0 }
    }
}

impl Quaternion {
    pub fn new(s: u32, x: u32, y: u32, z: u32) -> (q: Quaternion)
        ensures
            q == (Quaternion { s, x, y, z }),
    {
        Quaternion { s, x, y, z }
    }

    /// The quaternion whose four components all encode zero.
    pub fn zero() -> (q: Quaternion)
        ensures
            q == (Quaternion { s: 0, x: 0, y: 0, z: 0 }),
    {
        Quaternion { s: 0, x: 0, y: 0, z: 0 }
    }
}

/// Moves a vector's coordinates into a point, unchanged.
pub fn to_point(v: Vector3) -> (p: Point3)
    ensures
        p == (Point3 { x: v.x, y: v.y, z: v.z }),
{
    Point3 { x: v.x, y: v.y, z: v.z }
}

/// Moves a point's coordinates into a vector, unchanged.
pub fn to_vec(p: Point3) -> (v: Vector3)
    ensures
        v == (Vector3 { x: p.x, y: p.y, z: p.z }),
{
    Vector3 { x: p.x, y: p.y, z: p.z }
}

} // verus!
