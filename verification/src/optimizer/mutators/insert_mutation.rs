//! Insert mutation: one gene is taken out of the order and put back at
//! another place.
use crate::common::order::is_permutation_of;
use crate::common::random::gen_index;
use rand::rngs::ThreadRng;
use vstd::prelude::*;

verus! {

broadcast use vstd::seq_lib::group_to_multiset_ensures;

/// `s` with the gene at `from` taken out and put back at position `to` of the
/// shortened sequence.
pub open spec fn moved(s: Seq<usize>, from: int, to: int) -> Seq<usize> {
    s.remove(from).insert(to, s[from])
}

/// The order with the gene at `from` taken out and reinserted at `to`.
pub fn move_gene(order: &Vec<usize>, from: usize, to: usize) -> (child: Vec<usize>)
    requires
        from < order.len(),
        to < order.len(),
    ensures
        child@ == moved(order@, from as int, to as int),
        is_permutation_of(child@, order@),
{
    let mut child = order.clone();
    let temp = child.remove(from);
    child.insert(to, temp);
    proof {
        broadcast use vstd::seq_lib::to_multiset_remove;
        broadcast use vstd::seq_lib::to_multiset_insert;
        broadcast use vstd::multiset::group_multiset_axioms;

        assert(child@.to_multiset() =~= order@.to_multiset());
    }
    child
}

/// Insert mutation. An order of fewer than two genes comes back unchanged;
/// otherwise a gene at a random position is taken out and reinserted at a
/// random position of the shortened order.
pub fn modify(rng: &mut ThreadRng, current_order: &Vec<usize>) -> (child: Vec<usize>)
    ensures
        current_order.len() < 2 ==> child@ == current_order@,
        current_order.len() >= 2 ==> exists|from: int, to: int|
            0 <= from < current_order.len() && 0 <= to < current_order.len() && child@
                == #[trigger] moved(current_order@, from, to),
        is_permutation_of(child@, current_order@),
{
    let size = current_order.len();
    if size < 2 {
        return current_order.clone();
    }
    let from = gen_index(rng, 0, size);
    let to = gen_index(rng, 0, size);
    move_gene(current_order, from, to)
}

} // verus!
