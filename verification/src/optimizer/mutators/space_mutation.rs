//! Space mutation: the item that leaves the most empty space around it in a
//! packing moves to a random other place of the order.
use crate::common::order::{
    find_item_index, first_position, is_permutation_of, item_index, position_of,
};
use crate::common::random::gen_other_index;
use crate::optimizer::mutators::swap_mutation::{lemma_swapped_multiset, swap_positions, swapped};
use rand::rngs::ThreadRng;
use vstd::prelude::*;

verus! {

/// The position in the order of the item with the given id, when the order
/// has at least two genes and holds that item.
pub open spec fn target_position(
    order: Seq<usize>,
    target_box_id: Option<i32>,
    original_ids: Seq<i32>,
) -> Option<int> {
    match target_box_id {
        Some(id) => if order.len() > 1 {
            first_position(order, item_index(original_ids, id))
        } else {
            None
        },
        None => None,
    }
}

/// Space mutation. `target_box_id` is the id of the item with the most empty
/// space beyond it in the current packing, or `None` when no item was
/// examined; `original_ids` are the ids of the items by index. When the
/// order has at least two genes and holds that item, the item's gene is
/// exchanged with the gene at a random other position; otherwise the order
/// comes back unchanged.
pub fn modify(
    rng: &mut ThreadRng,
    current_order: &Vec<usize>,
    target_box_id: Option<i32>,
    original_ids: &Vec<i32>,
) -> (child: Vec<usize>)
    ensures
        match target_position(current_order@, target_box_id, original_ids@) {
            Some(p) => exists|q: int|
                0 <= q < current_order.len() && q != p && child@ == #[trigger] swapped(
                    current_order@,
                    p,
                    q,
                ),
            None => child@ == current_order@,
        },
        is_permutation_of(child@, current_order@),
{
    if let Some(target_id) = target_box_id {
        if current_order.len() > 1 {
            let target_index = find_item_index(original_ids, target_id);
            if let Some(order_index1) = position_of(current_order, target_index) {
                proof {
                    crate::common::order::lemma_first_position(current_order@, target_index);
                }
                let order_index2 = gen_other_index(rng, current_order.len(), order_index1);
                proof {
                    lemma_swapped_multiset(
                        current_order@,
                        order_index1 as int,
                        order_index2 as int,
                    );
                }
                return swap_positions(current_order, order_index1, order_index2);
            }
        }
    }
    current_order.clone()
}

} // verus!
