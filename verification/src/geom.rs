//! Plain integer vector types used for grid coordinates.

use vstd::prelude::*;

verus! {

/// A 2D integer position on a tile grid.
#[derive(Clone, Copy, PartialEq, Eq, Structural, Hash, Debug)]
pub struct Vector2I {
    /// Horizontal coordinate.
    pub x: i32,
    /// Vertical coordinate.
    pub y: i32,
}

impl Vector2I {
    /// Build a vector from its two coordinates.
    pub fn new(x: i32, y: i32) -> (r: Vector2I)
        ensures
            r == (Vector2I { x, y }),
    {
        Vector2I { x, y }
    }
}

/// A 3D integer position, used as a spatial hash cell index.
#[derive(Clone, Copy, PartialEq, Eq, Structural, Hash, Debug)]
pub struct Vector3I {
    /// First coordinate.
    pub x: i32,
    /// Second coordinate.
    pub y: i32,
    /// Third coordinate.
    pub z: i32,
}

impl Vector3I {
    /// Build a vector from its three coordinates.
    pub fn new(x: i32, y: i32, z: i32) -> (r: Vector3I)
        ensures
            r == (Vector3I { x, y, z }),
    {
        Vector3I { x, y, z }
    }
}

} // verus!
