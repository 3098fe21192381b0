//! The pairs of constraints that the gap-filling heuristic of the
//! advancing-front packers tries with a sphere just placed: pairs of nearby
//! spheres, a nearby sphere with a nearby wall, and two nearby walls. The
//! distances are measured by the caller; here they arrive as answers to the
//! questions the heuristic asks, and the pairs come out in the heuristic's
//! order.
use crate::solver::spheres::constraint::Constraint;
use vstd::prelude::*;

verus! {

/// The pair of two placed spheres.
pub open spec fn sphere_pair(a: usize, b: usize) -> (Constraint, Constraint) {
    (Constraint::Sphere { index: a }, Constraint::Sphere { index: b })
}

/// The sphere pairs formed with the nearby sphere at position `p`, visiting
/// the nearby spheres at positions `0..hi` in order: a later-numbered sphere
/// other than the new one, close to the one at `p`.
pub open spec fn sphere_pairs_upto(
    nearby: Seq<usize>,
    close: Seq<Vec<bool>>,
    new_index: usize,
    p: int,
    hi: int,
) -> Seq<(Constraint, Constraint)>
    decreases hi,
{
    if hi <= 0 {
        Seq::empty()
    } else {
        let q = hi - 1;
        sphere_pairs_upto(nearby, close, new_index, p, q) + if nearby[q] > nearby[p] && nearby[q]
            != new_index && close[p]@[q] {
            seq![sphere_pair(nearby[p], nearby[q])]
        } else {
            Seq::empty()
        }
    }
}

/// The wall and sphere pairs of sphere `s`, over the walls `0..hi` in order:
/// each wall close to the new sphere.
pub open spec fn wall_sphere_pairs_upto(
    walls: Seq<Constraint>,
    wall_close: Seq<bool>,
    s: usize,
    hi: int,
) -> Seq<(Constraint, Constraint)>
    decreases hi,
{
    if hi <= 0 {
        Seq::empty()
    } else {
        wall_sphere_pairs_upto(walls, wall_close, s, hi - 1) + if wall_close[hi - 1] {
            seq![(walls[hi - 1], Constraint::Sphere { index: s })]
        } else {
            Seq::empty()
        }
    }
}

/// Everything the nearby sphere at position `p` contributes: nothing when it
/// is the new sphere, else its sphere pairs, then its wall pairs.
pub open spec fn sphere_block(
    nearby: Seq<usize>,
    close: Seq<Vec<bool>>,
    new_index: usize,
    walls: Seq<Constraint>,
    wall_close: Seq<bool>,
    p: int,
) -> Seq<(Constraint, Constraint)> {
    if nearby[p] == new_index {
        Seq::empty()
    } else {
        sphere_pairs_upto(nearby, close, new_index, p, nearby.len() as int)
            + wall_sphere_pairs_upto(walls, wall_close, nearby[p], walls.len() as int)
    }
}

/// The blocks of the nearby spheres at positions `0..hi`, in order.
pub open spec fn sphere_blocks_upto(
    nearby: Seq<usize>,
    close: Seq<Vec<bool>>,
    new_index: usize,
    walls: Seq<Constraint>,
    wall_close: Seq<bool>,
    hi: int,
) -> Seq<(Constraint, Constraint)>
    decreases hi,
{
    if hi <= 0 {
        Seq::empty()
    } else {
        sphere_blocks_upto(nearby, close, new_index, walls, wall_close, hi - 1) + sphere_block(
            nearby,
            close,
            new_index,
            walls,
            wall_close,
            hi - 1,
        )
    }
}

/// The pairs of wall `i` with the walls `lo..hi` that are close to the new
/// sphere, in order.
pub open spec fn wall_pairs_between(
    walls: Seq<Constraint>,
    wall_close: Seq<bool>,
    i: int,
    lo: int,
    hi: int,
) -> Seq<(Constraint, Constraint)>
    decreases hi - lo,
{
    if hi <= lo {
        Seq::empty()
    } else {
        wall_pairs_between(walls, wall_close, i, lo, hi - 1) + if wall_close[hi - 1] {
            seq![(walls[i], walls[hi - 1])]
        } else {
            Seq::empty()
        }
    }
}

/// The pairs of wall `i` with the later walls: none when wall `i` is out of
/// reach of the new sphere.
pub open spec fn wall_block(
    walls: Seq<Constraint>,
    wall_close: Seq<bool>,
    wall_in_reach: Seq<bool>,
    i: int,
) -> Seq<(Constraint, Constraint)> {
    if wall_in_reach[i] {
        wall_pairs_between(walls, wall_close, i, i + 1, walls.len() as int)
    } else {
        Seq::empty()
    }
}

/// The blocks of the walls `0..hi`, in order.
pub open spec fn wall_blocks_upto(
    walls: Seq<Constraint>,
    wall_close: Seq<bool>,
    wall_in_reach: Seq<bool>,
    hi: int,
) -> Seq<(Constraint, Constraint)>
    decreases hi,
{
    if hi <= 0 {
        Seq::empty()
    } else {
        wall_blocks_upto(walls, wall_close, wall_in_reach, hi - 1) + wall_block(
            walls,
            wall_close,
            wall_in_reach,
            hi - 1,
        )
    }
}

/// All the pairs of the heuristic: the blocks of the nearby spheres, then
/// those of the walls.
pub open spec fn gap_fill_pairs_spec(
    nearby: Seq<usize>,
    close: Seq<Vec<bool>>,
    new_index: usize,
    walls: Seq<Constraint>,
    wall_close: Seq<bool>,
    wall_in_reach: Seq<bool>,
) -> Seq<(Constraint, Constraint)> {
    sphere_blocks_upto(nearby, close, new_index, walls, wall_close, nearby.len() as int)
        + wall_blocks_upto(walls, wall_close, wall_in_reach, walls.len() as int)
}

/// A pair leaves the new sphere out, and a pair of spheres names the lower
/// index first.
spec fn pair_ok(pair: (Constraint, Constraint), new_index: usize) -> bool {
    &&& pair.0 != (Constraint::Sphere { index: new_index })
    &&& pair.1 != (Constraint::Sphere { index: new_index })
    &&& (pair.0 is Sphere && pair.1 is Sphere ==> pair.0->index < pair.1->index)
}

spec fn all_ok(pairs: Seq<(Constraint, Constraint)>, new_index: usize) -> bool {
    forall|i: int| 0 <= i < pairs.len() ==> pair_ok(#[trigger] pairs[i], new_index)
}

proof fn lemma_concat_ok(
    a: Seq<(Constraint, Constraint)>,
    b: Seq<(Constraint, Constraint)>,
    new_index: usize,
)
    requires
        all_ok(a, new_index),
        all_ok(b, new_index),
    ensures
        all_ok(a + b, new_index),
{
    assert forall|i: int| 0 <= i < (a + b).len() implies pair_ok(#[trigger] (a + b)[i], new_index) by {
        if i < a.len() {
            assert((a + b)[i] == a[i]);
        } else {
            assert((a + b)[i] == b[i - a.len()]);
        }
    }
}

/// No wall is a sphere.
spec fn walls_are_planes(walls: Seq<Constraint>) -> bool {
    forall|w: int| 0 <= w < walls.len() ==> (#[trigger] walls[w]) is Plane
}

proof fn lemma_sphere_pairs_ok(
    nearby: Seq<usize>,
    close: Seq<Vec<bool>>,
    new_index: usize,
    p: int,
    hi: int,
)
    requires
        nearby[p] != new_index,
    ensures
        all_ok(sphere_pairs_upto(nearby, close, new_index, p, hi), new_index),
    decreases hi,
{
    if hi > 0 {
        lemma_sphere_pairs_ok(nearby, close, new_index, p, hi - 1);
        let q = hi - 1;
        let tail = if nearby[q] > nearby[p] && nearby[q] != new_index && close[p]@[q] {
            seq![sphere_pair(nearby[p], nearby[q])]
        } else {
            Seq::<(Constraint, Constraint)>::empty()
        };
        if nearby[q] > nearby[p] && nearby[q] != new_index && close[p]@[q] {
            let e = sphere_pair(nearby[p], nearby[q]);
            assert(pair_ok(e, new_index));
            assert(tail[0] == e);
        }
        assert(all_ok(tail, new_index));
        lemma_concat_ok(sphere_pairs_upto(nearby, close, new_index, p, q), tail, new_index);
    }
}

proof fn lemma_wall_sphere_pairs_ok(walls: Seq<Constraint>, wall_close: Seq<bool>, s: usize, new_index: usize, hi: int)
    requires
        s != new_index,
        walls_are_planes(walls),
        hi <= walls.len(),
    ensures
        all_ok(wall_sphere_pairs_upto(walls, wall_close, s, hi), new_index),
    decreases hi,
{
    if hi > 0 {
        lemma_wall_sphere_pairs_ok(walls, wall_close, s, new_index, hi - 1);
        let tail = if wall_close[hi - 1] {
            seq![(walls[hi - 1], Constraint::Sphere { index: s })]
        } else {
            Seq::<(Constraint, Constraint)>::empty()
        };
        assert(walls[hi - 1] is Plane);
        if wall_close[hi - 1] {
            let e = (walls[hi - 1], Constraint::Sphere { index: s });
            assert(pair_ok(e, new_index));
            assert(tail[0] == e);
        }
        assert(all_ok(tail, new_index));
        lemma_concat_ok(wall_sphere_pairs_upto(walls, wall_close, s, hi - 1), tail, new_index);
    }
}

proof fn lemma_sphere_blocks_ok(
    nearby: Seq<usize>,
    close: Seq<Vec<bool>>,
    new_index: usize,
    walls: Seq<Constraint>,
    wall_close: Seq<bool>,
    hi: int,
)
    requires
        walls_are_planes(walls),
    ensures
        all_ok(sphere_blocks_upto(nearby, close, new_index, walls, wall_close, hi), new_index),
    decreases hi,
{
    if hi > 0 {
        lemma_sphere_blocks_ok(nearby, close, new_index, walls, wall_close, hi - 1);
        let p = hi - 1;
        if nearby[p] != new_index {
            lemma_sphere_pairs_ok(nearby, close, new_index, p, nearby.len() as int);
            lemma_wall_sphere_pairs_ok(walls, wall_close, nearby[p], new_index, walls.len() as int);
            lemma_concat_ok(
                sphere_pairs_upto(nearby, close, new_index, p, nearby.len() as int),
                wall_sphere_pairs_upto(walls, wall_close, nearby[p], walls.len() as int),
                new_index,
            );
        }
        assert(all_ok(sphere_block(nearby, close, new_index, walls, wall_close, p), new_index));
        lemma_concat_ok(
            sphere_blocks_upto(nearby, close, new_index, walls, wall_close, hi - 1),
            sphere_block(nearby, close, new_index, walls, wall_close, p),
            new_index,
        );
    }
}

proof fn lemma_wall_pairs_ok(walls: Seq<Constraint>, wall_close: Seq<bool>, i: int, lo: int, hi: int, new_index: usize)
    requires
        walls_are_planes(walls),
        0 <= i < walls.len(),
        0 <= lo,
        hi <= walls.len(),
    ensures
        all_ok(wall_pairs_between(walls, wall_close, i, lo, hi), new_index),
    decreases hi - lo,
{
    if hi > lo {
        lemma_wall_pairs_ok(walls, wall_close, i, lo, hi - 1, new_index);
        let tail = if wall_close[hi - 1] {
            seq![(walls[i], walls[hi - 1])]
        } else {
            Seq::<(Constraint, Constraint)>::empty()
        };
        assert(walls[i] is Plane && walls[hi - 1] is Plane);
        if wall_close[hi - 1] {
            let e = (walls[i], walls[hi - 1]);
            assert(pair_ok(e, new_index));
            assert(tail[0] == e);
        }
        assert(all_ok(tail, new_index));
        lemma_concat_ok(wall_pairs_between(walls, wall_close, i, lo, hi - 1), tail, new_index);
    }
}

proof fn lemma_wall_blocks_ok(
    walls: Seq<Constraint>,
    wall_close: Seq<bool>,
    wall_in_reach: Seq<bool>,
    hi: int,
    new_index: usize,
)
    requires
        walls_are_planes(walls),
        hi <= walls.len(),
    ensures
        all_ok(wall_blocks_upto(walls, wall_close, wall_in_reach, hi), new_index),
    decreases hi,
{
    if hi > 0 {
        lemma_wall_blocks_ok(walls, wall_close, wall_in_reach, hi - 1, new_index);
        if wall_in_reach[hi - 1] {
            lemma_wall_pairs_ok(walls, wall_close, hi - 1, hi, walls.len() as int, new_index);
        }
        assert(all_ok(wall_block(walls, wall_close, wall_in_reach, hi - 1), new_index));
        lemma_concat_ok(
            wall_blocks_upto(walls, wall_close, wall_in_reach, hi - 1),
            wall_block(walls, wall_close, wall_in_reach, hi - 1),
            new_index,
        );
    }
}

/// No pair that the heuristic tries names the sphere just placed, and a
/// pair of two placed spheres names the lower index first, provided the
/// walls are walls: a gap is never bounded by the new sphere twice.
pub proof fn lemma_gap_fill_pairs_avoid_new_sphere(
    nearby: Seq<usize>,
    close: Seq<Vec<bool>>,
    new_index: usize,
    walls: Seq<Constraint>,
    wall_close: Seq<bool>,
    wall_in_reach: Seq<bool>,
)
    requires
        forall|w: int| 0 <= w < walls.len() ==> (#[trigger] walls[w]) is Plane,
    ensures
        forall|i: int|
            0 <= i < gap_fill_pairs_spec(nearby, close, new_index, walls, wall_close, wall_in_reach).len()
                ==> {
                let pair = #[trigger] gap_fill_pairs_spec(
                    nearby,
                    close,
                    new_index,
                    walls,
                    wall_close,
                    wall_in_reach,
                )[i];
                &&& pair.0 != (Constraint::Sphere { index: new_index })
                &&& pair.1 != (Constraint::Sphere { index: new_index })
                &&& (pair.0 is Sphere && pair.1 is Sphere ==> pair.0->index < pair.1->index)
            },
{
    lemma_sphere_blocks_ok(nearby, close, new_index, walls, wall_close, nearby.len() as int);
    lemma_wall_blocks_ok(walls, wall_close, wall_in_reach, walls.len() as int, new_index);
    lemma_concat_ok(
        sphere_blocks_upto(nearby, close, new_index, walls, wall_close, nearby.len() as int),
        wall_blocks_upto(walls, wall_close, wall_in_reach, walls.len() as int),
        new_index,
    );
    let all = gap_fill_pairs_spec(nearby, close, new_index, walls, wall_close, wall_in_reach);
    assert forall|i: int| 0 <= i < all.len() implies pair_ok(#[trigger] all[i], new_index) by {}
}

/// The pairs that the gap-filling heuristic tries with the sphere
/// `new_index` just placed. `nearby` lists the placed spheres found near it,
/// in the order they are visited, and `close[p][q]` says whether the nearby
/// spheres at positions `p` and `q` lie closer together than the search
/// radius. `wall_close[w]` says whether wall `w` lies closer to the new sphere
/// than the search radius, `wall_in_reach[w]` whether it lies no farther.
///
/// For each nearby sphere `a` but the new one, in order: the pairs of `a`
/// with each nearby sphere `b` numbered above `a`, other than the new one and
/// close to `a`; then the pairs of each wall close to the new sphere with
/// `a`. Then, for each wall in reach, its pairs with each later wall close to
/// the new sphere.
pub fn gap_fill_pairs(
    nearby: &Vec<usize>,
    close: &Vec<Vec<bool>>,
    new_index: usize,
    walls: &Vec<Constraint>,
    wall_close: &Vec<bool>,
    wall_in_reach: &Vec<bool>,
) -> (pairs: Vec<(Constraint, Constraint)>)
    requires
        close.len() == nearby.len(),
        forall|p: int| 0 <= p < close.len() ==> (#[trigger] close@[p]).len() == nearby.len(),
        wall_close.len() == walls.len(),
        wall_in_reach.len() == walls.len(),
    ensures
        pairs@ == gap_fill_pairs_spec(
            nearby@,
            close@,
            new_index,
            walls@,
            wall_close@,
            wall_in_reach@,
        ),
        (forall|w: int| 0 <= w < walls.len() ==> (#[trigger] walls@[w]) is Plane) ==> forall|i: int|
            0 <= i < pairs.len() ==> {
                &&& (#[trigger] pairs@[i]).0 != (Constraint::Sphere { index: new_index })
                &&& pairs@[i].1 != (Constraint::Sphere { index: new_index })
                &&& (pairs@[i].0 is Sphere && pairs@[i].1 is Sphere ==> pairs@[i].0->index
                    < pairs@[i].1->index)
            },
{
    let k = nearby.len();
    let m = walls.len();
    let mut pairs: Vec<(Constraint, Constraint)> = Vec::new();
    let mut p: usize = 0;
    while p < k
        invariant
            k == nearby.len(),
            m == walls.len(),
            close.len() == k,
            forall|x: int| 0 <= x < close.len() ==> (#[trigger] close@[x]).len() == k,
            wall_close.len() == m,
            0 <= p <= k,
            pairs@ == sphere_blocks_upto(nearby@, close@, new_index, walls@, wall_close@, p as int),
        decreases k - p,
    {
        let a = nearby[p];
        if a != new_index {
            let ghost before = pairs@;
            let mut q: usize = 0;
            while q < k
                invariant
                    k == nearby.len(),
                    close.len() == k,
                    forall|x: int| 0 <= x < close.len() ==> (#[trigger] close@[x]).len() == k,
                    0 <= p < k,
                    a == nearby@[p as int],
                    0 <= q <= k,
                    pairs@ == before + sphere_pairs_upto(nearby@, close@, new_index, p as int, q as int),
                decreases k - q,
            {
                let b = nearby[q];
                if b > a && b != new_index && close[p][q] {
                    pairs.push((Constraint::Sphere { index: a }, Constraint::Sphere { index: b }));
                }
                q += 1;
                proof {
                    assert(pairs@ =~= before + sphere_pairs_upto(
                        nearby@,
                        close@,
                        new_index,
                        p as int,
                        q as int,
                    ));
                }
            }
            let ghost middle = pairs@;
            let mut w: usize = 0;
            while w < m
                invariant
                    m == walls.len(),
                    wall_close.len() == m,
                    0 <= w <= m,
                    pairs@ == middle + wall_sphere_pairs_upto(walls@, wall_close@, a, w as int),
                decreases m - w,
            {
                if wall_close[w] {
                    pairs.push((walls[w], Constraint::Sphere { index: a }));
                }
                w += 1;
                proof {
                    assert(pairs@ =~= middle + wall_sphere_pairs_upto(
                        walls@,
                        wall_close@,
                        a,
                        w as int,
                    ));
                }
            }
            proof {
                assert(pairs@ =~= before + sphere_block(
                    nearby@,
                    close@,
                    new_index,
                    walls@,
                    wall_close@,
                    p as int,
                ));
            }
        } else {
            proof {
                assert(pairs@ =~= pairs@ + sphere_block(
                    nearby@,
                    close@,
                    new_index,
                    walls@,
                    wall_close@,
                    p as int,
                ));
            }
        }
        p += 1;
    }
    let ghost spheres_part = pairs@;
    let mut i: usize = 0;
    while i < m
        invariant
            m == walls.len(),
            wall_close.len() == m,
            wall_in_reach.len() == m,
            0 <= i <= m,
            pairs@ == spheres_part + wall_blocks_upto(walls@, wall_close@, wall_in_reach@, i as int),
        decreases m - i,
    {
        let ghost before = pairs@;
        if wall_in_reach[i] {
            let mut j: usize = i + 1;
            while j < m
                invariant
                    m == walls.len(),
                    wall_close.len() == m,
                    0 <= i < m,
                    i + 1 <= j <= m,
                    pairs@ == before + wall_pairs_between(
                        walls@,
                        wall_close@,
                        i as int,
                        i + 1,
                        j as int,
                    ),
                decreases m - j,
            {
                if wall_close[j] {
                    pairs.push((walls[i], walls[j]));
                }
                j += 1;
                proof {
                    assert(pairs@ =~= before + wall_pairs_between(
                        walls@,
                        wall_close@,
                        i as int,
                        i + 1,
                        j as int,
                    ));
                }
            }
        }
        proof {
            assert(pairs@ =~= before + wall_block(walls@, wall_close@, wall_in_reach@, i as int));
        }
        i += 1;
    }
    proof {
        if forall|w: int| 0 <= w < walls.len() ==> (#[trigger] walls@[w]) is Plane {
            lemma_gap_fill_pairs_avoid_new_sphere(
                nearby@,
                close@,
                new_index,
                walls@,
                wall_close@,
                wall_in_reach@,
            );
        }
    }
    pairs
}

} // verus!
