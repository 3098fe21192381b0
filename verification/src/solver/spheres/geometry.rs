use crate::common::point3::Point3;
use core::ops::{Add, Sub};
use vstd::prelude::*;
use vstd::std_specs::ops::{AddSpec, SubSpec};

verus! {

/// The difference of two points, coordinate by coordinate. Where the
/// scalar type's subtraction has a specification (the integer types), the
/// result is exactly the three differences; for a scalar whose arithmetic
/// vstd leaves open (floating point) nothing more than the shape is stated.
pub fn sub<T: Copy + Sub<Output = T>>(a: &Point3<T>, b: &Point3<T>) -> (r: Point3<T>)
    requires
        a.x.sub_req(b.x),
        a.y.sub_req(b.y),
        a.z.sub_req(b.z),
    ensures
        T::obeys_sub_spec() ==> r == (Point3 {
            x: a.x.sub_spec(b.x),
            y: a.y.sub_spec(b.y),
            z: a.z.sub_spec(b.z),
        }),
{
    Point3 { x: a.x - b.x, y: a.y - b.y, z: a.z - b.z }
}

/// The sum of two points, coordinate by coordinate; as with `sub`, exact
/// wherever the scalar type's addition has a specification.
pub fn add<T: Copy + Add<Output = T>>(a: &Point3<T>, b: &Point3<T>) -> (r: Point3<T>)
    requires
        a.x.add_req(b.x),
        a.y.add_req(b.y),
        a.z.add_req(b.z),
    ensures
        T::obeys_add_spec() ==> r == (Point3 {
            x: a.x.add_spec(b.x),
            y: a.y.add_spec(b.y),
            z: a.z.add_spec(b.z),
        }),
{
    Point3 { x: a.x + b.x, y: a.y + b.y, z: a.z + b.z }
}

/// The axis of an axis-aligned wall plane.
#[derive(Debug, Clone, Copy, PartialEq, Eq, Structural, Hash)]
pub enum Axis {
    X,
    Y,
    Z,
}

/// The position of an axis in the order X, Y, Z.
pub open spec fn axis_rank(axis: Axis) -> nat {
    match axis {
        Axis::X => 0,
        Axis::Y => 1,
        Axis::Z => 2,
    }
}

impl Axis {
    /// The index of the axis: 0 for X, 1 for Y, 2 for Z.
    pub fn index(&self) -> (r: u32)
        ensures
            r == axis_rank(*self),
    {
        match self {
            Axis::X => 0,
            Axis::Y => 1,
            Axis::Z => 2,
        }
    }
}

} // verus!
