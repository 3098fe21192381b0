//! Order crossover: a slice of the second parent is kept in place and the
//! remaining positions are filled with the first parent's genes in their
//! cyclic order.
use crate::common::order::{
    fresh_genes, is_permutation_of, lemma_fresh_genes, lemma_distinct_same_elements_permutation, lemma_mod_once,
    lemma_permutation_of_distinct, lemma_ring, ring_pos, ring_rank,
};
use crate::common::random::gen_index;
use rand::rngs::ThreadRng;
use std::collections::HashSet;
use vstd::prelude::*;

verus! {

broadcast use vstd::std_specs::hash::group_hash_axioms;

/// The genes of `p` read around the ring, starting at position `offset`.
pub open spec fn rotated(p: Seq<usize>, offset: int) -> Seq<usize> {
    Seq::new(p.len(), |i: int| p[ring_pos(offset, i, p.len() as int)])
}

/// The genes of the second parent between the two cuts, both included.
pub open spec fn cut_genes(parent2: Seq<usize>, cut1: int, cut2: int) -> Set<usize> {
    parent2.subrange(cut1, cut2 + 1).to_set()
}

/// The genes of the first parent that fill the positions outside the cut, in
/// the order they are written: around the ring from just after `cut2`.
pub open spec fn fill_genes(parent1: Seq<usize>, parent2: Seq<usize>, cut1: int, cut2: int) -> Seq<
    usize,
> {
    fresh_genes(rotated(parent1, cut2 + 1), cut_genes(parent2, cut1, cut2))
}

/// The child of an order crossover with the given cuts. The fill genes are
/// written one after another around the ring, starting just after `cut2`; a
/// position that no fill gene reaches keeps the second parent's gene inside
/// the cut, and `usize::MAX` outside it.
pub open spec fn crossover_child(parent1: Seq<usize>, parent2: Seq<usize>, cut1: int, cut2: int) -> Seq<
    usize,
> {
    let size = parent1.len() as int;
    let fill = fill_genes(parent1, parent2, cut1, cut2);
    Seq::new(
        parent1.len(),
        |pos: int|
            {
                let k = ring_rank(pos, cut2 + 1, size);
                if k < fill.len() {
                    fill[k]
                } else if cut1 <= pos <= cut2 {
                    parent2[pos]
                } else {
                    usize::MAX
                }
            },
    )
}

/// Reading a sequence without duplicates around the ring gives a sequence
/// without duplicates holding the same genes.
pub proof fn lemma_rotated(p: Seq<usize>, offset: int)
    requires
        p.no_duplicates(),
        0 <= offset <= p.len(),
    ensures
        rotated(p, offset).no_duplicates(),
        rotated(p, offset).len() == p.len(),
        forall|g: usize| rotated(p, offset).contains(g) <==> p.contains(g),
{
    let n = p.len() as int;
    let r = rotated(p, offset);
    assert forall|i: int, j: int| 0 <= i < n && 0 <= j < n && i != j implies r[i] != r[j] by {
        lemma_ring(ring_pos(offset, i, n), j, offset, n);
        lemma_ring(ring_pos(offset, j, n), i, offset, n);
        lemma_ring(ring_pos(offset, i, n), i, offset, n);
    }
    assert forall|g: usize| r.contains(g) <==> p.contains(g) by {
        if p.contains(g) {
            let j = choose|j: int| 0 <= j < n && p[j] == g;
            lemma_ring(j, 0, offset, n);
            assert(r[ring_rank(j, offset, n)] == g);
        }
        if r.contains(g) {
            let i = choose|i: int| 0 <= i < n && r[i] == g;
            lemma_ring(0, i, offset, n);
        }
    }
}

/// When both parents are rearrangements of the same genes without
/// duplicates, the crossover child is a rearrangement of the first parent.
pub proof fn lemma_crossover_child_permutes(
    parent1: Seq<usize>,
    parent2: Seq<usize>,
    cut1: int,
    cut2: int,
)
    requires
        0 <= cut1 <= cut2 < parent1.len(),
        parent1.no_duplicates(),
        is_permutation_of(parent2, parent1),
    ensures
        is_permutation_of(crossover_child(parent1, parent2, cut1, cut2), parent1),
{
    broadcast use vstd::set::group_set_axioms;
    broadcast use vstd::seq_lib::seq_to_set_is_finite;

    let n = parent1.len() as int;
    let o = cut2 + 1;
    lemma_permutation_of_distinct(parent2, parent1);
    let slice = parent2.subrange(cut1, cut2 + 1);
    let s = cut_genes(parent2, cut1, cut2);
    let rot = rotated(parent1, o);
    let fill = fill_genes(parent1, parent2, cut1, cut2);
    let child = crossover_child(parent1, parent2, cut1, cut2);
    lemma_rotated(parent1, o);
    lemma_fresh_genes(rot, s);
    // The cut holds distinct genes of the first parent.
    assert(slice.no_duplicates());
    slice.unique_seq_to_set();
    assert(s.len() == cut2 + 1 - cut1);
    let all = parent1.to_set();
    parent1.unique_seq_to_set();
    assert(s.subset_of(all)) by {
        assert forall|g: usize| s.contains(g) implies all.contains(g) by {
            let i = choose|i: int| 0 <= i < slice.len() && slice[i] == g;
            assert(parent2.contains(parent2[cut1 + i]));
        }
    }
    // The fill genes are the first parent's genes outside the cut.
    assert(fill.to_set() =~= all.difference(s));
    fill.unique_seq_to_set();
    vstd::set_lib::lemma_set_difference_len(all, s);
    assert(all.intersect(s) =~= s);
    assert(fill.len() == n - (cut2 + 1 - cut1));
    // Where each position's gene comes from.
    assert forall|pos: int| #![trigger child[pos]] 0 <= pos < n implies {
        let k = ring_rank(pos, o, n);
        &&& (k < fill.len() ==> !(cut1 <= pos <= cut2) && child[pos] == fill[k])
        &&& (k >= fill.len() ==> cut1 <= pos <= cut2 && child[pos] == parent2[pos])
    } by {
        lemma_ring(pos, 0, o, n);
        if pos <= cut2 {
            lemma_mod_once(pos - o + n, n);
            vstd::arithmetic::div_mod::lemma_mod_add_multiples_vanish(pos - o, n);
        } else {
            lemma_mod_once(pos - o, n);
        }
    }
    assert forall|i: int, j: int| 0 <= i < n && 0 <= j < n && i != j implies child[i]
        != child[j] by {
        let ki = ring_rank(i, o, n);
        let kj = ring_rank(j, o, n);
        let ci = child[i];
        let cj = child[j];
        lemma_ring(i, kj, o, n);
        lemma_ring(j, ki, o, n);
        lemma_ring(i, ki, o, n);
        if ki < fill.len() && kj >= fill.len() {
            assert(slice[j - cut1] == child[j]);
            assert(!s.contains(fill[ki]));
        } else if ki >= fill.len() && kj < fill.len() {
            assert(slice[i - cut1] == child[i]);
            assert(!s.contains(fill[kj]));
        } else if ki >= fill.len() && kj >= fill.len() {
            assert(slice[i - cut1] != slice[j - cut1]);
        }
    }
    assert forall|g: usize| child.contains(g) <==> parent1.contains(g) by {
        if child.contains(g) {
            let i = choose|i: int| 0 <= i < n && child[i] == g;
            let ki = ring_rank(i, o, n);
            lemma_ring(i, 0, o, n);
            if ki < fill.len() {
                assert(fill.contains(g));
            } else {
                assert(slice[i - cut1] == g);
                assert(s.contains(g));
            }
        }
        if parent1.contains(g) {
            assert(all.contains(g));
            if s.contains(g) {
                let i = choose|i: int| 0 <= i < slice.len() && slice[i] == g;
                let pos = cut1 + i;
                lemma_ring(pos, 0, o, n);
                assert(child[pos] == g);
            } else {
                assert(fill.to_set().contains(g));
                let k = choose|k: int| 0 <= k < fill.len() && fill[k] == g;
                let pos = ring_pos(o, k, n);
                lemma_ring(0, k, o, n);
                lemma_ring(pos, k, o, n);
                assert(child[pos] == g);
            }
        }
    }
    lemma_distinct_same_elements_permutation(child, parent1);
}

/// One more gene read around the ring: the fresh genes of the longer prefix.
proof fn lemma_fresh_genes_step(rot: Seq<usize>, excluded: Set<usize>, i: int)
    requires
        0 <= i < rot.len(),
    ensures
        fresh_genes(rot.take(i + 1), excluded) == if excluded.contains(rot[i]) || fresh_genes(
            rot.take(i),
            excluded,
        ).contains(rot[i]) {
            fresh_genes(rot.take(i), excluded)
        } else {
            fresh_genes(rot.take(i), excluded).push(rot[i])
        },
{
    assert(rot.take(i + 1).drop_last() =~= rot.take(i));
}

/// The order crossover of two parents with fixed cuts: the second parent's
/// genes between `cut1` and `cut2` stay in place, and the first parent's genes
/// that are not among them fill the other positions, read and written around
/// the ring from just after `cut2`.
pub fn crossover_with_cuts(
    parent1: &Vec<usize>,
    parent2: &Vec<usize>,
    cut1: usize,
    cut2: usize,
) -> (child: Vec<usize>)
    requires
        cut1 <= cut2 < parent1.len() <= parent2.len(),
    ensures
        child@ == crossover_child(parent1@, parent2@, cut1 as int, cut2 as int),
{
    let size = parent1.len();
    let ghost n = size as int;
    let ghost o = cut2 + 1;
    let ghost s = cut_genes(parent2@, cut1 as int, cut2 as int);
    let ghost rot = rotated(parent1@, o);
    let mut child: Vec<usize> = vec![usize::MAX; size];
    let mut contained: HashSet<usize> = HashSet::new();

    // 1. Copy the cut of the second parent.
    let mut i = cut1;
    while i <= cut2
        invariant
            cut1 <= i <= cut2 + 1,
            cut2 < size == parent1.len() <= parent2.len(),
            child.len() == size,
            forall|pos: int|
                0 <= pos < size ==> child[pos] == if cut1 <= pos < i {
                    parent2[pos]
                } else {
                    usize::MAX
                },
            contained@ == parent2@.subrange(cut1 as int, i as int).to_set(),
        decreases cut2 + 1 - i,
    {
        let val = parent2[i];
        child.set(i, val);
        contained.insert(val);
        proof {
            assert(parent2@.subrange(cut1 as int, i + 1) =~= parent2@.subrange(
                cut1 as int,
                i as int,
            ).push(val));
            parent2@.subrange(cut1 as int, i as int).lemma_push_to_set_commute(val);
        }
        i += 1;
    }

    // 2. Fill the other positions from the first parent.
    let start = if cut2 + 1 == size {
        0
    } else {
        cut2 + 1
    };
    proof {
        lemma_mod_once(o, n);
        assert(rot.take(0) =~= Seq::<usize>::empty());
    }
    let mut fill_pos = start;
    let mut i: usize = 0;
    while i < size
        invariant
            0 <= i <= size,
            n == size == parent1.len() <= parent2.len(),
            cut1 <= cut2 < size,
            o == cut2 + 1,
            start == ring_pos(o, 0, n),
            s == cut_genes(parent2@, cut1 as int, cut2 as int),
            rot == rotated(parent1@, o),
            child.len() == size,
            fresh_genes(rot.take(i as int), s).len() <= i,
            contained@ == s.union(fresh_genes(rot.take(i as int), s).to_set()),
            fill_pos == ring_pos(o, fresh_genes(rot.take(i as int), s).len() as int, n),
            forall|pos: int|
                0 <= pos < size ==> #[trigger] child[pos] == {
                    let fill = fresh_genes(rot.take(i as int), s);
                    let k = ring_rank(pos, o, n);
                    if k < fill.len() {
                        fill[k]
                    } else if cut1 <= pos <= cut2 {
                        parent2[pos]
                    } else {
                        usize::MAX
                    }
                },
        decreases size - i,
    {
        let idx = if i < size - start {
            start + i
        } else {
            i - (size - start)
        };
        proof {
            lemma_mod_once(o, n);
            lemma_mod_once(o + i, n);
            assert(idx == ring_pos(o, i as int, n));
        }
        let gene = parent1[idx];
        let ghost before = fresh_genes(rot.take(i as int), s);
        proof {
            assert(rot[i as int] == gene);
            lemma_fresh_genes_step(rot, s, i as int);
            lemma_fresh_genes(rot.take(i as int), s);
        }
        if !contained.contains(&gene) {
            proof {
                lemma_ring(0, before.len() as int, o, n);
                assert forall|pos: int| 0 <= pos < size && pos != fill_pos implies ring_rank(
                    pos,
                    o,
                    n,
                ) != before.len() by {
                    lemma_ring(pos, before.len() as int, o, n);
                }
                lemma_ring(fill_pos as int, before.len() as int, o, n);
                before.lemma_push_to_set_commute(gene);
            }
            child.set(fill_pos, gene);
            contained.insert(gene);
            fill_pos = if fill_pos + 1 == size {
                0
            } else {
                fill_pos + 1
            };
            proof {
                lemma_mod_once(o + before.len(), n);
                lemma_mod_once(o + before.len() + 1, n);
            }
        }
        i += 1;
    }
    proof {
        assert(rot.take(n) =~= rot);
    }
    child
}

/// Order crossover. An empty first parent gives an empty child; otherwise two
/// cuts are drawn at random, the smaller taken as `cut1`, and the child is the
/// crossover of the parents with those cuts.
pub fn modify(rng: &mut ThreadRng, parent1: &Vec<usize>, parent2: &Vec<usize>) -> (child: Vec<
    usize,
>)
    requires
        parent1.len() <= parent2.len(),
    ensures
        parent1.len() == 0 ==> child@ == Seq::<usize>::empty(),
        parent1.len() > 0 ==> exists|cut1: int, cut2: int|
            0 <= cut1 <= cut2 < parent1.len() && child@ == #[trigger] crossover_child(
                parent1@,
                parent2@,
                cut1,
                cut2,
            ),
        parent1@.no_duplicates() && is_permutation_of(parent2@, parent1@) ==> is_permutation_of(
            child@,
            parent1@,
        ),
{
    let size = parent1.len();
    if size == 0 {
        proof {
            assert(parent1@ =~= Seq::<usize>::empty());
        }
        return Vec::new();
    }
    let mut cut1 = gen_index(rng, 0, size);
    let mut cut2 = gen_index(rng, 0, size);
    if cut1 > cut2 {
        let t = cut1;
        cut1 = cut2;
        cut2 = t;
    }
    let child = crossover_with_cuts(parent1, parent2, cut1, cut2);
    proof {
        if parent1@.no_duplicates() && is_permutation_of(parent2@, parent1@) {
            lemma_crossover_child_permutes(parent1@, parent2@, cut1 as int, cut2 as int);
        }
    }
    child
}

} // verus!
