//! The constraints that bound a candidate gap of the advancing-front sphere
//! packer, and the canonical keys by which gaps are recognised again.
use crate::solver::spheres::geometry::{axis_rank, Axis};
use vstd::prelude::*;

verus! {

/// A bin wall or a placed sphere that a candidate gap touches. A wall is an
/// axis and the position of its inner face, held as the bits of that `f32`
/// coordinate; a sphere is its index among the placed spheres.
#[derive(Debug, Clone, Copy, PartialEq, Eq, Structural)]
pub enum Constraint {
    Plane { axis: Axis, value_bits: u32 },
    Sphere { index: usize },
}

/// The number that identifies a constraint: a wall packs its axis above the
/// 32 bits of its coordinate, a sphere sets bit 62 above its index.
pub open spec fn key_of(c: Constraint) -> u64 {
    match c {
        Constraint::Plane { axis, value_bits } => ((axis_rank(axis) as u64) << 32u64) | (
        value_bits as u64),
        Constraint::Sphere { index } => (1u64 << 62u64) | (index as u64),
    }
}

/// The three values in ascending order.
pub open spec fn sorted3(a: u64, b: u64, c: u64) -> Seq<u64> {
    if a <= b {
        if b <= c {
            seq![a, b, c]
        } else if a <= c {
            seq![a, c, b]
        } else {
            seq![c, a, b]
        }
    } else {
        if a <= c {
            seq![b, a, c]
        } else if b <= c {
            seq![b, c, a]
        } else {
            seq![c, b, a]
        }
    }
}

/// The canonical key of a triple of constraints: their keys in ascending
/// order.
pub open spec fn triple_key(t: Seq<Constraint>) -> Seq<u64> {
    sorted3(key_of(t[0]), key_of(t[1]), key_of(t[2]))
}

/// Neither two walls of a triple lie on the same axis (parallel walls do not
/// pin a point).
pub open spec fn triple_is_valid(t: Seq<Constraint>) -> bool {
    forall|i: int, j: int|
        0 <= i < j < 3 ==> !(#[trigger] t[i] matches Constraint::Plane { axis: a, .. } && #[trigger] t[j] matches Constraint::Plane { axis: b, .. } && a == b)
}

/// Whether a constraint is a placed sphere.
pub open spec fn is_sphere(c: Constraint) -> bool {
    c matches Constraint::Sphere { .. }
}

/// How many constraints of a triple are placed spheres.
pub open spec fn sphere_count(t: Seq<Constraint>) -> nat {
    (if is_sphere(t[0]) {
        1nat
    } else {
        0nat
    }) + (if is_sphere(t[1]) {
        1nat
    } else {
        0nat
    }) + (if is_sphere(t[2]) {
        1nat
    } else {
        0nat
    })
}

impl Constraint {
    /// The canonical sort key: walls before spheres, then by axis or index.
    pub fn sort_key(&self) -> (r: (u8, u32, u32))
        ensures
            r == match *self {
                Constraint::Plane { axis, .. } => (0u8, axis_rank(axis) as u32, 0u32),
                Constraint::Sphere { index } => (1u8, index as u32, 0u32),
            },
    {
        match self {
            Constraint::Plane { axis, .. } => (0, axis.index(), 0),
            Constraint::Sphere { index } => (1, *index as u32, 0),
        }
    }
}

/// The key of a constraint.
pub fn constraint_key(c: &Constraint) -> (r: u64)
    ensures
        r == key_of(*c),
{
    match c {
        Constraint::Plane { axis, value_bits } => ((axis.index() as u64) << 32u64) | (
        *value_bits as u64),
        Constraint::Sphere { index } => (1u64 << 62u64) | (*index as u64),
    }
}

/// The canonical key of a triple: the keys of its constraints, sorted, so
/// that the same gap gives the same key whatever the order of its
/// constraints.
pub fn make_key(constraints: &[Constraint; 3]) -> (r: [u64; 3])
    ensures
        r@ == triple_key(constraints@),
{
    let a = constraint_key(&constraints[0]);
    let b = constraint_key(&constraints[1]);
    let c = constraint_key(&constraints[2]);
    let r = if a <= b {
        if b <= c {
            [a, b, c]
        } else if a <= c {
            [a, c, b]
        } else {
            [c, a, b]
        }
    } else {
        if a <= c {
            [b, a, c]
        } else if b <= c {
            [b, c, a]
        } else {
            [c, b, a]
        }
    };
    proof {
        assert(r@ =~= sorted3(a, b, c));
    }
    r
}

/// Whether no two walls of the triple lie on the same axis.
pub fn is_valid_triple(triple: &[Constraint; 3]) -> (r: bool)
    ensures
        r == triple_is_valid(triple@),
{
    let ok01 = !same_axis_planes(&triple[0], &triple[1]);
    let ok02 = !same_axis_planes(&triple[0], &triple[2]);
    let ok12 = !same_axis_planes(&triple[1], &triple[2]);
    let r = ok01 && ok02 && ok12;
    proof {
        if !r {
            if !ok01 {
                assert(!triple_is_valid(triple@)) by {
                    assert(triple@[0] == triple[0] && triple@[1] == triple[1]);
                }
            } else if !ok02 {
                assert(triple@[0] == triple[0] && triple@[2] == triple[2]);
            } else {
                assert(triple@[1] == triple[1] && triple@[2] == triple[2]);
            }
        } else {
            assert forall|i: int, j: int| 0 <= i < j < 3 implies !(#[trigger] triple@[i] matches Constraint::Plane { axis: a, .. } && #[trigger] triple@[j] matches Constraint::Plane { axis: b, .. } && a == b) by {
                if i == 0 && j == 1 {
                } else if i == 0 && j == 2 {
                } else {
                    assert(i == 1 && j == 2);
                }
            }
        }
    }
    r
}

/// Whether both constraints are walls on the same axis.
fn same_axis_planes(c1: &Constraint, c2: &Constraint) -> (r: bool)
    ensures
        r == (*c1 matches Constraint::Plane { axis: a, .. } && *c2 matches Constraint::Plane { axis: b, .. } && a == b),
{
    match (c1, c2) {
        (Constraint::Plane { axis: a, .. }, Constraint::Plane { axis: b, .. }) => a.index() == b.index(),
        _ => false,
    }
}

/// How many constraints of the triple are placed spheres: the spheres a gap
/// touches.
pub fn touching_count(triple: &[Constraint; 3]) -> (r: usize)
    ensures
        r == sphere_count(triple@),
{
    let mut r: usize = 0;
    if matches!(triple[0], Constraint::Sphere { .. }) {
        r += 1;
    }
    if matches!(triple[1], Constraint::Sphere { .. }) {
        r += 1;
    }
    if matches!(triple[2], Constraint::Sphere { .. }) {
        r += 1;
    }
    r
}

/// The key of a triple does not depend on the order of its constraints:
/// exchanging the first two or the last two, from which every reordering
/// follows, leaves it unchanged.
pub proof fn lemma_triple_key_order_free(a: Constraint, b: Constraint, c: Constraint)
    ensures
        triple_key(seq![a, b, c]) == triple_key(seq![b, a, c]),
        triple_key(seq![a, b, c]) == triple_key(seq![a, c, b]),
        triple_key(seq![a, b, c]) == triple_key(seq![c, b, a]),
{
    let (ka, kb, kc) = (key_of(a), key_of(b), key_of(c));
    assert(seq![a, b, c][0] == a && seq![a, b, c][1] == b && seq![a, b, c][2] == c);
    assert(seq![b, a, c][0] == b && seq![b, a, c][1] == a && seq![b, a, c][2] == c);
    assert(seq![a, c, b][0] == a && seq![a, c, b][1] == c && seq![a, c, b][2] == b);
    assert(seq![c, b, a][0] == c && seq![c, b, a][1] == b && seq![c, b, a][2] == a);
    assert(sorted3(ka, kb, kc) =~= sorted3(kb, ka, kc));
    assert(sorted3(ka, kb, kc) =~= sorted3(ka, kc, kb));
    assert(sorted3(ka, kb, kc) =~= sorted3(kc, kb, ka));
}

/// Distinct constraints have distinct keys, for sphere indices below
/// `2^62`.
pub proof fn lemma_key_of_injective(c1: Constraint, c2: Constraint)
    requires
        c1 != c2,
        c1 matches Constraint::Sphere { index } ==> index < 0x4000_0000_0000_0000int,
        c2 matches Constraint::Sphere { index } ==> index < 0x4000_0000_0000_0000int,
    ensures
        key_of(c1) != key_of(c2),
{
    match (c1, c2) {
        (
            Constraint::Plane { axis: a1, value_bits: v1 },
            Constraint::Plane { axis: a2, value_bits: v2 },
        ) => {
            let r1 = axis_rank(a1) as u64;
            let r2 = axis_rank(a2) as u64;
            let w1 = v1 as u64;
            let w2 = v2 as u64;
            assert(r1 < 4 && r2 < 4);
            assert(((r1 << 32u64) | w1) == ((r2 << 32u64) | w2) ==> r1 == r2 && w1 == w2)
                by (bit_vector)
                requires
                    r1 < 4,
                    r2 < 4,
                    w1 < 0x1_0000_0000,
                    w2 < 0x1_0000_0000,
            ;
            if r1 == r2 {
                assert(a1 == a2);
            }
        },
        (Constraint::Sphere { index: i1 }, Constraint::Sphere { index: i2 }) => {
            let j1 = i1 as u64;
            let j2 = i2 as u64;
            assert(((1u64 << 62u64) | j1) == ((1u64 << 62u64) | j2) ==> j1 == j2) by (bit_vector)
                requires
                    j1 < 0x4000_0000_0000_0000,
                    j2 < 0x4000_0000_0000_0000,
            ;
        },
        (Constraint::Plane { axis: a1, value_bits: v1 }, Constraint::Sphere { index: i2 }) => {
            let r1 = axis_rank(a1) as u64;
            let w1 = v1 as u64;
            let j2 = i2 as u64;
            assert(((r1 << 32u64) | w1) != ((1u64 << 62u64) | j2)) by (bit_vector)
                requires
                    r1 < 4,
                    w1 < 0x1_0000_0000,
            ;
        },
        (Constraint::Sphere { index: i1 }, Constraint::Plane { axis: a2, value_bits: v2 }) => {
            let r2 = axis_rank(a2) as u64;
            let w2 = v2 as u64;
            let j1 = i1 as u64;
            assert(((r2 << 32u64) | w2) != ((1u64 << 62u64) | j1)) by (bit_vector)
                requires
                    r2 < 4,
                    w2 < 0x1_0000_0000,
            ;
        },
    }
}

/// The walls along one axis: the floor-side wall at 0 and, unless the axis is
/// left open, the far wall at the given coordinate.
pub open spec fn axis_walls(axis: Axis, far_bits: u32, open_axis: Option<Axis>) -> Seq<Constraint> {
    if open_axis == Some(axis) {
        seq![Constraint::Plane { axis, value_bits: 0 }]
    } else {
        seq![
            Constraint::Plane { axis, value_bits: 0 },
            Constraint::Plane { axis, value_bits: far_bits },
        ]
    }
}

/// The walls of a bin of the given width, height and depth (as `f32` bits),
/// axis by axis, without the far wall of the open axis.
pub open spec fn bin_walls(w_bits: u32, h_bits: u32, d_bits: u32, open_axis: Option<Axis>) -> Seq<Constraint> {
    axis_walls(Axis::X, w_bits, open_axis) + axis_walls(Axis::Y, h_bits, open_axis) + axis_walls(
        Axis::Z,
        d_bits,
        open_axis,
    )
}

/// The walls along one axis.
fn push_axis_walls(walls: &mut Vec<Constraint>, axis: Axis, far_bits: u32, open_axis: Option<Axis>)
    ensures
        final(walls)@ == old(walls)@ + axis_walls(axis, far_bits, open_axis),
{
    walls.push(Constraint::Plane { axis, value_bits: 0 });
    let open = match open_axis {
        Some(a) => a.index() == axis.index(),
        None => false,
    };
    proof {
        if let Some(a) = open_axis {
            if open {
                assert(a == axis);
            }
        }
    }
    if !open {
        walls.push(Constraint::Plane { axis, value_bits: far_bits });
    }
    proof {
        assert(final(walls)@ =~= old(walls)@ + axis_walls(axis, far_bits, open_axis));
    }
}

/// The walls of a bin whose width, height and depth have the given `f32`
/// bits; the far wall of `open_axis`, if any, is left out (the top of a bin
/// filled from below).
pub fn wall_constraints(w_bits: u32, h_bits: u32, d_bits: u32, open_axis: Option<Axis>) -> (walls:
    Vec<Constraint>)
    ensures
        walls@ == bin_walls(w_bits, h_bits, d_bits, open_axis),
{
    let mut walls: Vec<Constraint> = Vec::new();
    push_axis_walls(&mut walls, Axis::X, w_bits, open_axis);
    push_axis_walls(&mut walls, Axis::Y, h_bits, open_axis);
    push_axis_walls(&mut walls, Axis::Z, d_bits, open_axis);
    proof {
        assert(walls@ =~= bin_walls(w_bits, h_bits, d_bits, open_axis));
    }
    walls
}

/// Index triples compare lexicographically.
pub open spec fn triple_before(a: (usize, usize, usize), b: (usize, usize, usize)) -> bool {
    a.0 < b.0 || (a.0 == b.0 && (a.1 < b.1 || (a.1 == b.1 && a.2 < b.2)))
}

/// The index triple `i < j < k` picks a valid triple of walls.
pub open spec fn picks_valid_triple(walls: Seq<Constraint>, t: (usize, usize, usize)) -> bool {
    &&& t.0 < t.1 < t.2 < walls.len()
    &&& triple_is_valid(seq![walls[t.0 as int], walls[t.1 as int], walls[t.2 as int]])
}

/// The index triples `i < j < k` whose walls form a valid triple, in
/// lexicographic order: the corners a new bin's first sphere can take.
pub fn valid_wall_triples(walls: &Vec<Constraint>) -> (triples: Vec<(usize, usize, usize)>)
    ensures
        forall|a: int, b: int|
            0 <= a < b < triples.len() ==> triple_before(#[trigger] triples[a], #[trigger] triples[b]),
        forall|a: int| 0 <= a < triples.len() ==> picks_valid_triple(walls@, #[trigger] triples[a]),
        forall|t: (usize, usize, usize)| #[trigger] picks_valid_triple(walls@, t) ==> triples@.contains(t),
{
    let n = walls.len();
    let mut triples: Vec<(usize, usize, usize)> = Vec::new();
    let mut i: usize = 0;
    while i < n
        invariant
            n == walls.len(),
            0 <= i <= n,
            forall|a: int, b: int|
                0 <= a < b < triples.len() ==> triple_before(#[trigger] triples[a], #[trigger] triples[b]),
            forall|a: int| 0 <= a < triples.len() ==> picks_valid_triple(walls@, #[trigger] triples[a]),
            forall|a: int| 0 <= a < triples.len() ==> (#[trigger] triples[a]).0 < i,
            forall|t: (usize, usize, usize)|
                #[trigger] picks_valid_triple(walls@, t) && t.0 < i ==> triples@.contains(t),
        decreases n - i,
    {
        let mut j: usize = i + 1;
        while j < n
            invariant
                n == walls.len(),
                0 <= i < n,
                i + 1 <= j <= n,
                forall|a: int, b: int|
                    0 <= a < b < triples.len() ==> triple_before(#[trigger] triples[a], #[trigger] triples[b]),
                forall|a: int| 0 <= a < triples.len() ==> picks_valid_triple(walls@, #[trigger] triples[a]),
                forall|a: int|
                    0 <= a < triples.len() ==> (#[trigger] triples[a]).0 < i || ((triples[a]).0 == i
                        && triples[a].1 < j),
                forall|t: (usize, usize, usize)|
                    #[trigger] picks_valid_triple(walls@, t) && (t.0 < i || (t.0 == i && t.1 < j))
                        ==> triples@.contains(t),
            decreases n - j,
        {
            let mut k: usize = j + 1;
            while k < n
                invariant
                    n == walls.len(),
                    0 <= i < j < n,
                    j + 1 <= k <= n,
                    forall|a: int, b: int|
                        0 <= a < b < triples.len() ==> triple_before(
                            #[trigger] triples[a],
                            #[trigger] triples[b],
                        ),
                    forall|a: int|
                        0 <= a < triples.len() ==> picks_valid_triple(walls@, #[trigger] triples[a]),
                    forall|a: int|
                        0 <= a < triples.len() ==> (#[trigger] triples[a]).0 < i || ((triples[a]).0
                            == i && (triples[a].1 < j || (triples[a].1 == j && triples[a].2 < k))),
                    forall|t: (usize, usize, usize)|
                        #[trigger] picks_valid_triple(walls@, t) && (t.0 < i || (t.0 == i && (t.1
                            < j || (t.1 == j && t.2 < k)))) ==> triples@.contains(t),
                decreases n - k,
            {
                let triple = [walls[i], walls[j], walls[k]];
                let ok = is_valid_triple(&triple);
                proof {
                    assert(triple@ =~= seq![walls@[i as int], walls@[j as int], walls@[k as int]]);
                }
                if ok {
                    let ghost before = triples@;
                    triples.push((i, j, k));
                    proof {
                        assert(triples@[before.len() as int] == (i, j, k));
                        assert forall|t: (usize, usize, usize)|
                            #[trigger] picks_valid_triple(walls@, t) && (t.0 < i || (t.0 == i && (
                            t.1 < j || (t.1 == j && t.2 < k + 1)))) implies triples@.contains(t) by {
                            if t == (i, j, k) {
                                assert(triples@[before.len() as int] == t);
                            } else {
                                assert(before.contains(t));
                                let a = choose|a: int| 0 <= a < before.len() && before[a] == t;
                                assert(triples@[a] == t);
                            }
                        }
                    }
                }
                k += 1;
            }
            j += 1;
        }
        i += 1;
    }
    triples
}

/// The three pairs of constraints of a consumed gap, each of which, with the
/// sphere just placed in it, bounds a new gap.
pub fn consumed_pairs(consumed: &[Constraint; 3]) -> (pairs: Vec<(Constraint, Constraint)>)
    ensures
        pairs@ == seq![
            (consumed@[0], consumed@[1]),
            (consumed@[0], consumed@[2]),
            (consumed@[1], consumed@[2]),
        ],
{
    let pairs = vec![(consumed[0], consumed[1]), (consumed[0], consumed[2]), (consumed[1], consumed[2])];
    proof {
        assert(pairs@ =~= seq![
            (consumed@[0], consumed@[1]),
            (consumed@[0], consumed@[2]),
            (consumed@[1], consumed@[2]),
        ]);
    }
    pairs
}

/// The triple of a pair and the placed sphere `new_index`.
pub open spec fn with_sphere(pair: (Constraint, Constraint), new_index: usize) -> Seq<Constraint> {
    seq![pair.0, pair.1, Constraint::Sphere { index: new_index }]
}

/// The triples of the pairs with the placed sphere `new_index`, in order,
/// those that are valid.
pub open spec fn gap_triple_seqs(pairs: Seq<(Constraint, Constraint)>, new_index: usize) -> Seq<
    Seq<Constraint>,
> {
    pairs.map_values(|p: (Constraint, Constraint)| with_sphere(p, new_index)).filter(
        |t: Seq<Constraint>| triple_is_valid(t),
    )
}

/// One more pair adds its triple when that is valid.
proof fn lemma_gap_triple_seqs_step(pairs: Seq<(Constraint, Constraint)>, new_index: usize, i: int)
    requires
        0 <= i < pairs.len(),
    ensures
        gap_triple_seqs(pairs.take(i + 1), new_index) == if triple_is_valid(
            with_sphere(pairs[i], new_index),
        ) {
            gap_triple_seqs(pairs.take(i), new_index).push(with_sphere(pairs[i], new_index))
        } else {
            gap_triple_seqs(pairs.take(i), new_index)
        },
{
    let f = |p: (Constraint, Constraint)| with_sphere(p, new_index);
    let v = |t: Seq<Constraint>| triple_is_valid(t);
    assert(pairs.take(i + 1).map_values(f) =~= pairs.take(i).map_values(f).push(f(pairs[i])));
    pairs.take(i).map_values(f).lemma_filter_push(f(pairs[i]), v);
}

/// The new gaps around the sphere just placed: for each pair, in order, the
/// triple of the pair and the sphere, where it is valid.
pub fn gap_triples(pairs: &Vec<(Constraint, Constraint)>, new_index: usize) -> (triples: Vec<
    [Constraint; 3],
>)
    ensures
        triples.len() == gap_triple_seqs(pairs@, new_index).len(),
        forall|a: int|
            0 <= a < triples.len() ==> (#[trigger] triples@[a])@ == gap_triple_seqs(
                pairs@,
                new_index,
            )[a],
{
    let mut triples: Vec<[Constraint; 3]> = Vec::new();
    let mut i: usize = 0;
    proof {
        assert(pairs@.take(0) =~= Seq::<(Constraint, Constraint)>::empty());
        assert(gap_triple_seqs(pairs@.take(0), new_index) =~= Seq::<Seq<Constraint>>::empty());
    }
    while i < pairs.len()
        invariant
            0 <= i <= pairs.len(),
            triples.len() == gap_triple_seqs(pairs@.take(i as int), new_index).len(),
            forall|a: int|
                0 <= a < triples.len() ==> (#[trigger] triples@[a])@ == gap_triple_seqs(
                    pairs@.take(i as int),
                    new_index,
                )[a],
        decreases pairs.len() - i,
    {
        let pair = pairs[i];
        let triple = [pair.0, pair.1, Constraint::Sphere { index: new_index }];
        let ok = is_valid_triple(&triple);
        proof {
            assert(triple@ =~= with_sphere(pair, new_index));
            lemma_gap_triple_seqs_step(pairs@, new_index, i as int);
        }
        if ok {
            triples.push(triple);
        }
        i += 1;
    }
    proof {
        assert(pairs@.take(pairs.len() as int) =~= pairs@);
    }
    triples
}

} // verus!
