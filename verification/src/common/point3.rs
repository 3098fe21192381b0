//! Points and vectors in three dimensions over any scalar type.
use vstd::prelude::*;

verus! {

/// A point, or a vector, in three dimensions.
#[derive(Debug, Clone, Copy, PartialEq)]
pub struct Point3<T> {
    pub x: T,
    pub y: T,
    pub z: T,
}

impl<T> Point3<T> {
    /// The point with the given coordinates.
    pub fn new(x: T, y: T, z: T) -> (p: Self)
        ensures
            p.x == x && p.y == y && p.z == z,
    {
        Point3 { x, y, z }
    }
}

} // verus!
