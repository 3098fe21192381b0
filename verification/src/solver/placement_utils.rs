//! Placement helpers of the box packers that do not depend on coordinates:
//! the free-space list, the orientations a box is tried in, and the rotation
//! mask handed to the parallel solvers.
use vstd::prelude::*;

verus! {

/// Placement helpers shared by the box packers.
pub struct PlacementUtils;

/// An orientation of a box: which of its sides lie along the bin's x, y and z
/// axes.
#[derive(Debug, Clone, Copy, PartialEq, Eq, Structural)]
pub enum Orientation {
    /// As given: (x, y, z).
    Upright,
    /// Turned about the x axis: (x, z, y).
    AroundX,
    /// Turned about the y axis: (y, x, z).
    AroundY,
    /// Turned about the z axis: (z, y, x).
    AroundZ,
}

/// The orientations tried after the upright one, for the given rotation axes
/// (0 for x, 1 for y, 2 for z): those whose axis is listed, in the order x, y,
/// z.
pub open spec fn turned_orientations(axes: Seq<i32>) -> Seq<Orientation> {
    (if axes.contains(0) {
        seq![Orientation::AroundX]
    } else {
        Seq::empty()
    }) + (if axes.contains(1) {
        seq![Orientation::AroundY]
    } else {
        Seq::empty()
    }) + (if axes.contains(2) {
        seq![Orientation::AroundZ]
    } else {
        Seq::empty()
    })
}

/// The side lengths of a box in the given orientation.
pub open spec fn oriented_spec<T>(o: Orientation, x: T, y: T, z: T) -> (T, T, T) {
    match o {
        Orientation::Upright => (x, y, z),
        Orientation::AroundX => (x, z, y),
        Orientation::AroundY => (y, x, z),
        Orientation::AroundZ => (z, y, x),
    }
}

/// Whether `axes` lists `axis`.
pub fn contains_axis(axes: &Vec<i32>, axis: i32) -> (r: bool)
    ensures
        r == axes@.contains(axis),
{
    let mut i: usize = 0;
    while i < axes.len()
        invariant
            0 <= i <= axes.len(),
            forall|j: int| 0 <= j < i ==> axes@[j] != axis,
        decreases axes.len() - i,
    {
        if axes[i] == axis {
            proof {
                assert(axes@[i as int] == axis);
            }
            return true;
        }
        i += 1;
    }
    false
}

impl PlacementUtils {
    /// Removes the free space at `space_index`; the last free space takes its
    /// place.
    pub fn unordered_remove_space<T>(free_spaces: &mut Vec<T>, space_index: usize)
        requires
            space_index < old(free_spaces).len(),
        ensures
            final(free_spaces)@ == old(free_spaces)@.update(
                space_index as int,
                old(free_spaces)@.last(),
            ).drop_last(),
    {
        free_spaces.swap_remove(space_index);
    }

    /// The orientations a box is tried in, in order: upright first, then, when
    /// rotations are given and not empty, those turned about the listed axes.
    pub fn fit_orientations(rotations: Option<&Vec<i32>>) -> (r: Vec<Orientation>)
        ensures
            r@ == match rotations {
                Some(axes) => seq![Orientation::Upright] + turned_orientations(axes@),
                None => seq![Orientation::Upright],
            },
    {
        let mut r: Vec<Orientation> = Vec::new();
        r.push(Orientation::Upright);
        if let Some(axes) = rotations {
            if contains_axis(axes, 0) {
                r.push(Orientation::AroundX);
            }
            if contains_axis(axes, 1) {
                r.push(Orientation::AroundY);
            }
            if contains_axis(axes, 2) {
                r.push(Orientation::AroundZ);
            }
            proof {
                assert(r@ =~= seq![Orientation::Upright] + turned_orientations(axes@));
            }
        }
        r
    }

    /// The side lengths `(x, y, z)` of a box in the given orientation.
    pub fn oriented<T: Copy>(o: Orientation, x: T, y: T, z: T) -> (r: (T, T, T))
        ensures
            r == oriented_spec(o, x, y, z),
    {
        match o {
            Orientation::Upright => (x, y, z),
            Orientation::AroundX => (x, z, y),
            Orientation::AroundY => (y, x, z),
            Orientation::AroundZ => (z, y, x),
        }
    }

    /// The rotation axes as a bit mask: 1 for x, 2 for y, 4 for z.
    pub fn rotation_mask(axes: &Vec<i32>) -> (mask: i32)
        ensures
            mask == (if axes@.contains(0) {
                1int
            } else {
                0
            }) + (if axes@.contains(1) {
                2int
            } else {
                0
            }) + (if axes@.contains(2) {
                4int
            } else {
                0
            }),
    {
        let mut mask: i32 = 0;
        if contains_axis(axes, 0) {
            mask = mask | 1;
        }
        if contains_axis(axes, 1) {
            mask = mask | 2;
        }
        if contains_axis(axes, 2) {
            mask = mask | 4;
        }
        proof {
            assert(0i32 | 1i32 == 1i32) by (bit_vector);
            assert(0i32 | 2i32 == 2i32) by (bit_vector);
            assert(1i32 | 2i32 == 3i32) by (bit_vector);
            assert(0i32 | 4i32 == 4i32) by (bit_vector);
            assert(1i32 | 4i32 == 5i32) by (bit_vector);
            assert(2i32 | 4i32 == 6i32) by (bit_vector);
            assert(3i32 | 4i32 == 7i32) by (bit_vector);
        }
        mask
    }
}

} // verus!
