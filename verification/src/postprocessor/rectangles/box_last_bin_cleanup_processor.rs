//! The vertical axis of the last-bin pass over box packings, and which
//! coordinates its placement score weighs.
use crate::solver::spheres::geometry::{axis_rank, Axis};
use vstd::prelude::*;

verus! {

/// The axis along which a bin is filled from the floor up.
#[derive(Debug, Clone, Copy, PartialEq, Eq, Structural)]
pub enum VerticalAxis {
    X,
    Y,
    Z,
}

/// The axis a vertical axis names.
pub open spec fn vertical_as_axis(v: VerticalAxis) -> Axis {
    match v {
        VerticalAxis::X => Axis::X,
        VerticalAxis::Y => Axis::Y,
        VerticalAxis::Z => Axis::Z,
    }
}

/// The axes a placement score adds up: the two horizontal axes in the order
/// X, Y, Z, then the vertical axis, whose coordinate carries the weight.
pub open spec fn score_axes_of(v: VerticalAxis) -> (Axis, Axis, Axis) {
    match v {
        VerticalAxis::Y => (Axis::X, Axis::Z, Axis::Y),
        VerticalAxis::Z => (Axis::X, Axis::Y, Axis::Z),
        VerticalAxis::X => (Axis::Y, Axis::Z, Axis::X),
    }
}

impl VerticalAxis {
    /// The axis this vertical axis names.
    pub fn axis(&self) -> (a: Axis)
        ensures
            a == vertical_as_axis(*self),
    {
        match self {
            VerticalAxis::X => Axis::X,
            VerticalAxis::Y => Axis::Y,
            VerticalAxis::Z => Axis::Z,
        }
    }

    /// The axes whose coordinates make up the score of a free space: the two
    /// horizontal ones, then the vertical one. The three are distinct, the
    /// horizontal ones come in axis order, and the last is the vertical axis.
    pub fn score_axes(&self) -> (axes: (Axis, Axis, Axis))
        ensures
            axes == score_axes_of(*self),
            axes.2 == vertical_as_axis(*self),
            axis_rank(axes.0) < axis_rank(axes.1),
            axes.0 != axes.2 && axes.1 != axes.2,
    {
        match self {
            VerticalAxis::Y => (Axis::X, Axis::Z, Axis::Y),
            VerticalAxis::Z => (Axis::X, Axis::Y, Axis::Z),
            VerticalAxis::X => (Axis::Y, Axis::Z, Axis::X),
        }
    }
}

} // verus!
