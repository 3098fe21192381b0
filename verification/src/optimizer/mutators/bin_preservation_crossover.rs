//! Bin-preservation crossover: the items of the best-filled bin of one
//! solution lead the child, followed by the remaining items in the order of a
//! second solution.
use crate::common::order::{
    find_item_index, first_position, fresh_genes, is_order, item_index, lemma_first_position,
    lemma_fresh_genes, lemma_order_covers, lemma_order_from_cover,
};
use std::collections::HashSet;
use vstd::prelude::*;

verus! {

broadcast use vstd::std_specs::hash::group_hash_axioms;

/// The item indices of the given ids, one for each id, in their order.
pub open spec fn packed_indices(best_bin_ids: Seq<i32>, original_ids: Seq<i32>) -> Seq<usize> {
    best_bin_ids.map_values(|id: i32| item_index(original_ids, id))
}

/// The child: the indices of the preserved bin's items, then the second
/// order's genes that are not among them, each once.
pub open spec fn preservation_child(
    best_bin_ids: Seq<i32>,
    original_ids: Seq<i32>,
    second_order: Seq<usize>,
) -> Seq<usize> {
    let front = packed_indices(best_bin_ids, original_ids);
    front + fresh_genes(second_order, front.to_set())
}

/// Bin-preservation crossover. `best_bin_ids` are the ids of the items in the
/// best-filled bin of the first solution, in their packed order, and empty
/// when that solution has no non-empty bin; `original_ids` are the ids of the
/// items by index.
pub fn modify(best_bin_ids: &Vec<i32>, original_ids: &Vec<i32>, second_order: &Vec<usize>) -> (child:
    Vec<usize>)
    ensures
        child@ == preservation_child(best_bin_ids@, original_ids@, second_order@),
{
    let ghost front = packed_indices(best_bin_ids@, original_ids@);
    let mut child: Vec<usize> = Vec::new();
    let mut packed_ids: HashSet<usize> = HashSet::new();
    let mut i: usize = 0;
    while i < best_bin_ids.len()
        invariant
            0 <= i <= best_bin_ids.len(),
            front == packed_indices(best_bin_ids@, original_ids@),
            child@ == front.take(i as int),
            packed_ids@ == child@.to_set(),
        decreases best_bin_ids.len() - i,
    {
        let target_index = find_item_index(original_ids, best_bin_ids[i]);
        proof {
            child@.lemma_push_to_set_commute(target_index);
            assert(front.take(i + 1) =~= front.take(i as int).push(target_index));
        }
        child.push(target_index);
        packed_ids.insert(target_index);
        i += 1;
    }
    proof {
        assert(front.take(i as int) =~= front);
        assert(second_order@.take(0) =~= Seq::<usize>::empty());
    }
    let mut j: usize = 0;
    while j < second_order.len()
        invariant
            0 <= j <= second_order.len(),
            child@ == front + fresh_genes(second_order@.take(j as int), front.to_set()),
            packed_ids@ == front.to_set().union(
                fresh_genes(second_order@.take(j as int), front.to_set()).to_set(),
            ),
        decreases second_order.len() - j,
    {
        let id = second_order[j];
        let ghost before = fresh_genes(second_order@.take(j as int), front.to_set());
        proof {
            assert(second_order@.take(j + 1).drop_last() =~= second_order@.take(j as int));
        }
        if !packed_ids.contains(&id) {
            proof {
                before.lemma_push_to_set_commute(id);
                assert(front + before.push(id) =~= (front + before).push(id));
            }
            child.push(id);
            packed_ids.insert(id);
        }
        j += 1;
    }
    proof {
        assert(second_order@.take(j as int) =~= second_order@);
    }
    child
}

/// When the ids of the items are distinct and the preserved bin holds distinct
/// items of them, a child bred from an order of the items is again an order
/// of the items.
pub proof fn lemma_preservation_child_is_order(
    best_bin_ids: Seq<i32>,
    original_ids: Seq<i32>,
    second_order: Seq<usize>,
)
    requires
        original_ids.len() <= usize::MAX,
        original_ids.no_duplicates(),
        best_bin_ids.no_duplicates(),
        forall|i: int| 0 <= i < best_bin_ids.len() ==> original_ids.contains(best_bin_ids[i]),
        is_order(second_order, original_ids.len()),
    ensures
        is_order(preservation_child(best_bin_ids, original_ids, second_order), original_ids.len()),
{
    let n = original_ids.len();
    let front = packed_indices(best_bin_ids, original_ids);
    let rest = fresh_genes(second_order, front.to_set());
    let child = preservation_child(best_bin_ids, original_ids, second_order);
    lemma_fresh_genes(second_order, front.to_set());
    lemma_order_covers(second_order, n);
    // Each preserved id is found at its first position.
    assert forall|i: int| 0 <= i < front.len() implies front[i] < n && original_ids[front[i] as int]
        == best_bin_ids[i] by {
        lemma_first_position(original_ids, best_bin_ids[i]);
        assert(original_ids.contains(best_bin_ids[i]));
        assert(first_position(original_ids, best_bin_ids[i]) is Some);
    }
    assert forall|i: int, j: int| 0 <= i < child.len() && 0 <= j < child.len() && i != j implies child[i]
        != child[j] by {
        if i < front.len() && j < front.len() {
            assert(best_bin_ids[i] != best_bin_ids[j]);
        } else if i < front.len() {
            assert(child[j] == rest[j - front.len()]);
            assert(rest.contains(child[j]));
            assert(front.to_set().contains(child[i]));
        } else if j < front.len() {
            assert(child[i] == rest[i - front.len()]);
            assert(rest.contains(child[i]));
            assert(front.to_set().contains(child[j]));
        } else {
            assert(child[i] == rest[i - front.len()]);
            assert(child[j] == rest[j - front.len()]);
        }
    }
    assert forall|i: int| 0 <= i < child.len() implies child[i] < n by {
        if i >= front.len() {
            assert(child[i] == rest[i - front.len()]);
            assert(rest.contains(child[i]));
            assert(second_order.contains(child[i]));
            let k = choose|k: int| 0 <= k < second_order.len() && second_order[k] == child[i];
        }
    }
    assert forall|x: usize| x < n implies child.contains(x) by {
        if front.to_set().contains(x) {
            let k = choose|k: int| 0 <= k < front.len() && front[k] == x;
            assert(child[k] == x);
        } else {
            assert(rest.contains(x));
            let k = choose|k: int| 0 <= k < rest.len() && rest[k] == x;
            assert(child[front.len() + k] == x);
        }
    }
    lemma_order_from_cover(child, n);
}

} // verus!
