//! The vertical axis of the last-bin pass over sphere packings, and the walls
//! from which that pass starts: a bin filled from the floor up has no top.
use crate::solver::spheres::constraint::{
    bin_walls, picks_valid_triple, wall_constraints, Constraint,
};
use crate::solver::spheres::geometry::{axis_rank, Axis};
use vstd::prelude::*;

verus! {

/// The axis along which a bin is filled from the floor up.
#[derive(Debug, Clone, Copy, PartialEq, Eq, Structural)]
pub enum VerticalAxis {
    X,
    Y,
    Z,
}

/// The axis a vertical axis names.
pub open spec fn vertical_as_axis(v: VerticalAxis) -> Axis {
    match v {
        VerticalAxis::X => Axis::X,
        VerticalAxis::Y => Axis::Y,
        VerticalAxis::Z => Axis::Z,
    }
}

/// The axes a placement score adds up: the two horizontal axes in the order
/// X, Y, Z, then the vertical axis, whose coordinate carries the weight.
pub open spec fn score_axes_of(v: VerticalAxis) -> (Axis, Axis, Axis) {
    match v {
        VerticalAxis::Y => (Axis::X, Axis::Z, Axis::Y),
        VerticalAxis::Z => (Axis::X, Axis::Y, Axis::Z),
        VerticalAxis::X => (Axis::Y, Axis::Z, Axis::X),
    }
}

impl VerticalAxis {
    /// The axis this vertical axis names.
    pub fn axis(&self) -> (a: Axis)
        ensures
            a == vertical_as_axis(*self),
    {
        match self {
            VerticalAxis::X => Axis::X,
            VerticalAxis::Y => Axis::Y,
            VerticalAxis::Z => Axis::Z,
        }
    }

    /// The axes whose coordinates make up the score of a candidate centre:
    /// the two horizontal ones, then the vertical one.
    pub fn score_axes(&self) -> (axes: (Axis, Axis, Axis))
        ensures
            axes == score_axes_of(*self),
            axes.2 == vertical_as_axis(*self),
            axis_rank(axes.0) < axis_rank(axes.1),
            axes.0 != axes.2 && axes.1 != axes.2,
    {
        match self {
            VerticalAxis::Y => (Axis::X, Axis::Z, Axis::Y),
            VerticalAxis::Z => (Axis::X, Axis::Y, Axis::Z),
            VerticalAxis::X => (Axis::Y, Axis::Z, Axis::X),
        }
    }

    /// The walls the pass starts from, for a bin whose width, height and depth
    /// have the given `f32` bits: every wall but the top one along this axis.
    pub fn open_top_walls(&self, w_bits: u32, h_bits: u32, d_bits: u32) -> (walls: Vec<Constraint>)
        ensures
            walls@ == bin_walls(w_bits, h_bits, d_bits, Some(vertical_as_axis(*self))),
    {
        let a = self.axis();
        wall_constraints(w_bits, h_bits, d_bits, Some(a))
    }
}

/// With the top wall of the vertical axis left out, every corner from which
/// the pass can start rests on the floor of that axis: each valid triple of
/// the remaining walls holds the floor plane of the vertical axis.
pub proof fn lemma_corners_rest_on_floor(
    w_bits: u32,
    h_bits: u32,
    d_bits: u32,
    vertical: Axis,
    t: (usize, usize, usize),
)
    requires
        picks_valid_triple(bin_walls(w_bits, h_bits, d_bits, Some(vertical)), t),
    ensures
        ({
            let walls = bin_walls(w_bits, h_bits, d_bits, Some(vertical));
            let floor = Constraint::Plane { axis: vertical, value_bits: 0 };
            walls[t.0 as int] == floor || walls[t.1 as int] == floor || walls[t.2 as int] == floor
        }),
{
    let walls = bin_walls(w_bits, h_bits, d_bits, Some(vertical));
    let triple = seq![walls[t.0 as int], walls[t.1 as int], walls[t.2 as int]];
    assert(walls.len() == 5);
    assert(triple[0] == walls[t.0 as int] && triple[1] == walls[t.1 as int] && triple[2]
        == walls[t.2 as int]);
    match vertical {
        Axis::X => {
            assert(walls =~= seq![
                Constraint::Plane { axis: Axis::X, value_bits: 0 },
                Constraint::Plane { axis: Axis::Y, value_bits: 0 },
                Constraint::Plane { axis: Axis::Y, value_bits: h_bits },
                Constraint::Plane { axis: Axis::Z, value_bits: 0 },
                Constraint::Plane { axis: Axis::Z, value_bits: d_bits },
            ]);
        },
        Axis::Y => {
            assert(walls =~= seq![
                Constraint::Plane { axis: Axis::X, value_bits: 0 },
                Constraint::Plane { axis: Axis::X, value_bits: w_bits },
                Constraint::Plane { axis: Axis::Y, value_bits: 0 },
                Constraint::Plane { axis: Axis::Z, value_bits: 0 },
                Constraint::Plane { axis: Axis::Z, value_bits: d_bits },
            ]);
        },
        Axis::Z => {
            assert(walls =~= seq![
                Constraint::Plane { axis: Axis::X, value_bits: 0 },
                Constraint::Plane { axis: Axis::X, value_bits: w_bits },
                Constraint::Plane { axis: Axis::Y, value_bits: 0 },
                Constraint::Plane { axis: Axis::Y, value_bits: h_bits },
                Constraint::Plane { axis: Axis::Z, value_bits: 0 },
            ]);
        },
    }
}

} // verus!
