//! Scramble mutation: the genes between two random positions are shuffled.
use crate::common::order::is_permutation_of;
use crate::common::random::{gen_index, shuffle_range};
use rand::rngs::ThreadRng;
use vstd::prelude::*;

verus! {

/// `child` is `s` with the genes at positions `start..=end` rearranged among
/// themselves and every other position kept.
pub open spec fn scrambled_between(child: Seq<usize>, s: Seq<usize>, start: int, end: int) -> bool {
    &&& child.len() == s.len()
    &&& forall|i: int| 0 <= i < s.len() && !(start <= i <= end) ==> child[i] == s[i]
    &&& is_permutation_of(child.subrange(start, end + 1), s.subrange(start, end + 1))
}

/// Rearranging a segment among itself rearranges the whole sequence.
pub proof fn lemma_scrambled_permutes(child: Seq<usize>, s: Seq<usize>, start: int, end: int)
    requires
        0 <= start <= end < s.len(),
        scrambled_between(child, s, start, end),
    ensures
        is_permutation_of(child, s),
{
    broadcast use vstd::seq_lib::lemma_multiset_commutative;

    assert(child =~= child.subrange(0, start) + child.subrange(start, end + 1) + child.subrange(
        end + 1,
        child.len() as int,
    ));
    assert(s =~= s.subrange(0, start) + s.subrange(start, end + 1) + s.subrange(
        end + 1,
        s.len() as int,
    ));
    assert(child.subrange(0, start) =~= s.subrange(0, start));
    assert(child.subrange(end + 1, child.len() as int) =~= s.subrange(end + 1, s.len() as int));
}

/// Scramble mutation. An order of fewer than two genes comes back unchanged;
/// otherwise two random positions are drawn, ordered, and the genes between
/// them, both included, are shuffled.
pub fn modify(rng: &mut ThreadRng, current_order: &Vec<usize>) -> (child: Vec<usize>)
    ensures
        current_order.len() < 2 ==> child@ == current_order@,
        current_order.len() >= 2 ==> exists|start: int, end: int|
            0 <= start <= end < current_order.len() && #[trigger] scrambled_between(
                child@,
                current_order@,
                start,
                end,
            ),
        is_permutation_of(child@, current_order@),
{
    let mut child = current_order.clone();
    let size = child.len();
    if size > 1 {
        let mut start = gen_index(rng, 0, size);
        let mut end = gen_index(rng, 0, size);
        if start > end {
            let t = start;
            start = end;
            end = t;
        }
        shuffle_range(rng, &mut child, start, end);
        proof {
            assert(scrambled_between(child@, current_order@, start as int, end as int));
            lemma_scrambled_permutes(child@, current_order@, start as int, end as int);
        }
    }
    child
}

} // verus!
