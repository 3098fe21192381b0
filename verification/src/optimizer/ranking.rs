//! Ranking indices by integer keys, keeping equal keys in index order.
use crate::common::order::{is_order, lemma_order_covers};
use vstd::prelude::*;

verus! {

/// Index `a` ranks before index `b`: its key comes first (the larger key when
/// `descending`), or the keys are equal and `a` is the smaller index.
pub open spec fn ranks_before(keys: Seq<u64>, a: usize, b: usize, descending: bool) -> bool {
    if keys[a as int] == keys[b as int] {
        a < b
    } else if descending {
        keys[a as int] > keys[b as int]
    } else {
        keys[a as int] < keys[b as int]
    }
}

/// `order` lists every index of `keys` once, each ranking before all that
/// follow it: the result of a stable sort of the indices by their keys.
pub open spec fn is_stable_ranking(order: Seq<usize>, keys: Seq<u64>, descending: bool) -> bool {
    &&& is_order(order, keys.len())
    &&& forall|i: int, j: int|
        0 <= i < j < order.len() ==> ranks_before(keys, #[trigger] order[i], #[trigger] order[j], descending)
}

/// Whether index `a` ranks before index `b`.
pub fn ranks_before_exec(keys: &Vec<u64>, a: usize, b: usize, descending: bool) -> (r: bool)
    requires
        a < keys.len(),
        b < keys.len(),
    ensures
        r == ranks_before(keys@, a, b, descending),
{
    if keys[a] == keys[b] {
        a < b
    } else if descending {
        keys[a] > keys[b]
    } else {
        keys[a] < keys[b]
    }
}

/// The indices of `keys` sorted stably by their keys: ascending, or
/// descending when `descending` is set; equal keys keep index order.
pub fn rank_indices(keys: &Vec<u64>, descending: bool) -> (order: Vec<usize>)
    ensures
        is_stable_ranking(order@, keys@, descending),
{
    let n = keys.len();
    let mut order: Vec<usize> = Vec::new();
    let mut i: usize = 0;
    while i < n
        invariant
            n == keys.len(),
            0 <= i <= n,
            order.len() == i,
            order@.no_duplicates(),
            forall|q: int| 0 <= q < order.len() ==> order[q] < i,
            forall|p: int, q: int|
                0 <= p < q < order.len() ==> ranks_before(keys@, #[trigger] order[p], #[trigger] order[q], descending),
        decreases n - i,
    {
        let mut p: usize = 0;
        while p < order.len()
            invariant
                n == keys.len(),
                i < n,
                0 <= p <= order.len(),
                forall|q: int| 0 <= q < order.len() ==> order[q] < i,
                forall|q: int| 0 <= q < p ==> ranks_before(keys@, #[trigger] order[q], i, descending),
            ensures
                0 <= p <= order.len(),
                forall|q: int| 0 <= q < p ==> ranks_before(keys@, #[trigger] order[q], i, descending),
                p < order.len() ==> !ranks_before(keys@, order[p as int], i, descending),
            decreases order.len() - p,
        {
            if !ranks_before_exec(keys, order[p], i, descending) {
                break;
            }
            p += 1;
        }
        let ghost old_order = order@;
        proof {
            if p < order.len() {
                assert(ranks_before(keys@, i, order[p as int], descending));
                assert forall|q: int| p <= q < order.len() implies ranks_before(
                    keys@,
                    i,
                    #[trigger] order[q],
                    descending,
                ) by {
                    if q > p {
                        assert(ranks_before(keys@, order[p as int], order[q], descending));
                    }
                }
            }
        }
        order.insert(p, i);
        proof {
            assert(order@ =~= old_order.insert(p as int, i));
            assert forall|a: int, b: int| 0 <= a < b < order.len() implies ranks_before(
                keys@,
                #[trigger] order[a],
                #[trigger] order[b],
                descending,
            ) by {
                if a < p && b < p {
                    assert(ranks_before(keys@, old_order[a], old_order[b], descending));
                } else if a < p && b > p {
                    assert(ranks_before(keys@, old_order[a], old_order[b - 1], descending));
                } else if a > p {
                    assert(ranks_before(keys@, old_order[a - 1], old_order[b - 1], descending));
                }
            }
            assert forall|a: int, b: int| 0 <= a < order.len() && 0 <= b < order.len() && a != b implies order[a] != order[b] by {
                if a != p && b != p {
                    let a0 = if a < p { a } else { a - 1 };
                    let b0 = if b < p { b } else { b - 1 };
                    assert(old_order[a0] != old_order[b0]);
                }
            }
        }
        i += 1;
    }
    order
}

/// A stable ranking is determined by the keys: two of them are equal.
pub proof fn lemma_stable_ranking_unique(o1: Seq<usize>, o2: Seq<usize>, keys: Seq<u64>, descending: bool)
    requires
        keys.len() <= usize::MAX,
        is_stable_ranking(o1, keys, descending),
        is_stable_ranking(o2, keys, descending),
    ensures
        o1 == o2,
{
    let n = keys.len();
    lemma_order_covers(o1, n);
    lemma_order_covers(o2, n);
    assert forall|k: int| 0 <= k < n implies o1[k] == o2[k] by {
        lemma_stable_ranking_prefix(o1, o2, keys, descending, k + 1);
    }
    assert(o1 =~= o2);
}

/// Two stable rankings agree on every prefix.
proof fn lemma_stable_ranking_prefix(o1: Seq<usize>, o2: Seq<usize>, keys: Seq<u64>, descending: bool, k: int)
    requires
        keys.len() <= usize::MAX,
        is_stable_ranking(o1, keys, descending),
        is_stable_ranking(o2, keys, descending),
        forall|x: usize| x < keys.len() ==> o1.contains(x),
        forall|x: usize| x < keys.len() ==> o2.contains(x),
        0 <= k <= keys.len(),
    ensures
        forall|j: int| 0 <= j < k ==> o1[j] == o2[j],
    decreases k,
{
    if k > 0 {
        lemma_stable_ranking_prefix(o1, o2, keys, descending, k - 1);
        let m = k - 1;
        let a = o1[m];
        let b = o2[m];
        if a != b {
            assert(o1.contains(b));
            let j1 = choose|j: int| 0 <= j < o1.len() && o1[j] == b;
            assert(o2.contains(a));
            let j2 = choose|j: int| 0 <= j < o2.len() && o2[j] == a;
            if j1 < m {
                assert(o2[j1] == b);
            }
            if j2 < m {
                assert(o1[j2] == a);
            }
            assert(ranks_before(keys, o1[m], o1[j1], descending));
            assert(ranks_before(keys, o2[m], o2[j2], descending));
        }
    }
}

} // verus!
