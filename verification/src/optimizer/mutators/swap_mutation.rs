//! Swap mutation: two distinct positions of an order exchange their genes.
use crate::common::random::{gen_index, gen_other_index};
use rand::rngs::ThreadRng;
use vstd::prelude::*;

verus! {

broadcast use vstd::seq_lib::group_to_multiset_ensures;

/// `s` with the entries at positions `i` and `j` exchanged.
pub open spec fn swapped(s: Seq<usize>, i: int, j: int) -> Seq<usize> {
    s.update(i, s[j]).update(j, s[i])
}

/// Exchanging two entries keeps the multiset of entries.
pub proof fn lemma_swapped_multiset(s: Seq<usize>, i: int, j: int)
    requires
        0 <= i < s.len(),
        0 <= j < s.len(),
    ensures
        swapped(s, i, j).len() == s.len(),
        swapped(s, i, j).to_multiset() == s.to_multiset(),
{
    broadcast use vstd::seq_lib::to_multiset_update;
    broadcast use vstd::multiset::group_multiset_axioms;

    let t = s.update(i, s[j]);
    assert(t.to_multiset() =~= s.to_multiset().insert(s[j]).remove(s[i]));
    assert(t.update(j, s[i]).to_multiset() =~= t.to_multiset().insert(s[i]).remove(t[j]));
    assert(swapped(s, i, j).to_multiset() =~= s.to_multiset());
}

/// The order with the genes at `index1` and `index2` exchanged.
pub fn swap_positions(order: &Vec<usize>, index1: usize, index2: usize) -> (child: Vec<usize>)
    requires
        index1 < order.len(),
        index2 < order.len(),
    ensures
        child@ == swapped(order@, index1 as int, index2 as int),
{
    let mut child = order.clone();
    let a = child[index1];
    let b = child[index2];
    child.set(index1, b);
    child.set(index2, a);
    child
}

/// Swap mutation. An order of fewer than two genes comes back unchanged;
/// otherwise two distinct positions, drawn at random, exchange their genes.
pub fn modify(rng: &mut ThreadRng, current_order: &Vec<usize>) -> (child: Vec<usize>)
    ensures
        current_order.len() < 2 ==> child@ == current_order@,
        current_order.len() >= 2 ==> exists|i: int, j: int|
            0 <= i < current_order.len() && 0 <= j < current_order.len() && i != j && child@
                == #[trigger] swapped(current_order@, i, j),
        child@.to_multiset() == current_order@.to_multiset(),
{
    let size = current_order.len();
    if size < 2 {
        return current_order.clone();
    }
    let index1 = gen_index(rng, 0, size);
    let index2 = gen_other_index(rng, size, index1);
    let child = swap_positions(current_order, index1, index2);
    proof {
        lemma_swapped_multiset(current_order@, index1 as int, index2 as int);
    }
    child
}

} // verus!
