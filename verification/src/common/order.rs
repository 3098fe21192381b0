//! Facts about packing orders: sequences of item indices.
use vstd::prelude::*;

verus! {

broadcast use vstd::seq_lib::group_to_multiset_ensures;

/// `a` holds the same entries as `b`, each as often: one order is a
/// rearrangement of the other.
pub open spec fn is_permutation_of(a: Seq<usize>, b: Seq<usize>) -> bool {
    a.to_multiset() == b.to_multiset()
}

/// Two sequences without duplicates that hold the same elements are
/// rearrangements of each other.
pub proof fn lemma_distinct_same_elements_permutation(a: Seq<usize>, b: Seq<usize>)
    requires
        a.no_duplicates(),
        b.no_duplicates(),
        forall|x: usize| a.contains(x) <==> b.contains(x),
    ensures
        is_permutation_of(a, b),
{
    broadcast use vstd::multiset::group_multiset_axioms;
    broadcast use vstd::seq_lib::to_multiset_contains;

    a.lemma_multiset_has_no_duplicates();
    b.lemma_multiset_has_no_duplicates();
    assert forall|x: usize| a.to_multiset().count(x) == b.to_multiset().count(x) by {
        if a.contains(x) {
            assert(a.to_multiset().count(x) == 1);
            assert(b.to_multiset().count(x) == 1);
        } else {
            assert(a.to_multiset().count(x) == 0);
            assert(b.to_multiset().count(x) == 0);
        }
    }
    assert(a.to_multiset() =~= b.to_multiset());
}

/// A rearrangement of a sequence without duplicates has none either, has the
/// same length and holds the same elements.
pub proof fn lemma_permutation_of_distinct(a: Seq<usize>, b: Seq<usize>)
    requires
        b.no_duplicates(),
        is_permutation_of(a, b),
    ensures
        a.no_duplicates(),
        a.len() == b.len(),
        forall|x: usize| a.contains(x) <==> b.contains(x),
{
    broadcast use vstd::multiset::group_multiset_axioms;
    broadcast use vstd::seq_lib::to_multiset_contains;
    broadcast use vstd::seq_lib::to_multiset_len;

    b.lemma_multiset_has_no_duplicates();
    a.lemma_multiset_has_no_duplicates_conv();
    assert(a.len() == a.to_multiset().len());
    assert(b.len() == b.to_multiset().len());
    assert forall|x: usize| a.contains(x) <==> b.contains(x) by {
        assert(a.to_multiset().count(x) == b.to_multiset().count(x));
    }
}


/// Position `offset + m`, counted around a ring of `n` positions.
pub open spec fn ring_pos(offset: int, m: int, n: int) -> int {
    (offset + m) % n
}

/// How many steps after `offset` the position `pos` comes on a ring of `n`.
pub open spec fn ring_rank(pos: int, offset: int, n: int) -> int {
    (pos - offset) % n
}

/// Reducing a value up to `2 n` modulo `n` subtracts `n` at most twice.
pub proof fn lemma_mod_once(x: int, n: int)
    requires
        0 < n,
        0 <= x <= 2 * n,
    ensures
        x % n == if x < n {
            x
        } else if x < 2 * n {
            x - n
        } else {
            0
        },
{
    if x < n {
        vstd::arithmetic::div_mod::lemma_small_mod(x as nat, n as nat);
    } else if x == 2 * n {
        vstd::arithmetic::div_mod::lemma_mod_multiples_basic(2, n);
    } else {
        vstd::arithmetic::div_mod::lemma_small_mod((x - n) as nat, n as nat);
        vstd::arithmetic::div_mod::lemma_mod_sub_multiples_vanish(x, n);
    }
}

/// Ranks and positions on a ring undo each other.
pub proof fn lemma_ring(pos: int, m: int, offset: int, n: int)
    requires
        0 < n,
        0 <= offset <= n,
        0 <= pos < n,
        0 <= m < n,
    ensures
        0 <= ring_pos(offset, m, n) < n,
        0 <= ring_rank(pos, offset, n) < n,
        ring_pos(offset, ring_rank(pos, offset, n), n) == pos,
        (ring_pos(offset, m, n) == pos) <==> (ring_rank(pos, offset, n) == m),
{
    lemma_mod_once(offset + m, n);
    let d = pos - offset;
    if d >= 0 {
        lemma_mod_once(d, n);
        lemma_mod_once(offset + d, n);
    } else {
        vstd::arithmetic::div_mod::lemma_mod_add_multiples_vanish(d, n);
        lemma_mod_once(d + n, n);
        lemma_mod_once(offset + d + n, n);
    }
}

/// The genes of `genes`, in their order, that are not in `excluded` and have
/// not occurred earlier in `genes`.
pub open spec fn fresh_genes(genes: Seq<usize>, excluded: Set<usize>) -> Seq<usize>
    decreases genes.len(),
{
    if genes.len() == 0 {
        Seq::empty()
    } else {
        let earlier = fresh_genes(genes.drop_last(), excluded);
        let g = genes.last();
        if excluded.contains(g) || earlier.contains(g) {
            earlier
        } else {
            earlier.push(g)
        }
    }
}

/// The fresh genes occur once each, are the genes of the input outside
/// `excluded`, and are no more than the input.
pub proof fn lemma_fresh_genes(genes: Seq<usize>, excluded: Set<usize>)
    ensures
        fresh_genes(genes, excluded).no_duplicates(),
        fresh_genes(genes, excluded).len() <= genes.len(),
        forall|g: usize|
            fresh_genes(genes, excluded).contains(g) <==> (genes.contains(g) && !excluded.contains(
                g,
            )),
    decreases genes.len(),
{
    if genes.len() > 0 {
        let rest = genes.drop_last();
        lemma_fresh_genes(rest, excluded);
        let earlier = fresh_genes(rest, excluded);
        let g0 = genes.last();
        assert forall|x: usize| earlier.push(g0).contains(x) <==> (earlier.contains(x) || x
            == g0) by {
            if earlier.push(g0).contains(x) {
                let i = choose|i: int| 0 <= i < earlier.len() + 1 && earlier.push(g0)[i] == x;
                if i < earlier.len() {
                    assert(earlier[i] == x);
                }
            }
            if earlier.contains(x) {
                let i = choose|i: int| 0 <= i < earlier.len() && earlier[i] == x;
                assert(earlier.push(g0)[i] == x);
            }
            if x == g0 {
                assert(earlier.push(g0)[earlier.len() as int] == x);
            }
        }
        assert forall|g: usize| genes.contains(g) <==> (rest.contains(g) || g == genes.last()) by {
            if genes.contains(g) {
                let i = choose|i: int| 0 <= i < genes.len() && genes[i] == g;
                if i < genes.len() - 1 {
                    assert(rest[i] == g);
                }
            }
            if rest.contains(g) {
                let i = choose|i: int| 0 <= i < rest.len() && rest[i] == g;
                assert(genes[i] == g);
            }
            if g == genes.last() {
                assert(genes[genes.len() - 1] == g);
            }
        }
    }
}

/// The position of the first entry of `ids` equal to `id`, if any.
pub open spec fn first_position<T>(ids: Seq<T>, id: T) -> Option<int>
    decreases ids.len(),
{
    if ids.len() == 0 {
        None
    } else {
        match first_position(ids.drop_last(), id) {
            Some(i) => Some(i),
            None => if ids.last() == id {
                Some(ids.len() - 1)
            } else {
                None
            },
        }
    }
}

/// The index of the item with the given id: the position of the first item
/// that carries it, or, where none does, the id itself taken as an index.
pub open spec fn item_index(ids: Seq<i32>, id: i32) -> usize {
    match first_position(ids, id) {
        Some(i) => i as usize,
        None => id as usize,
    }
}

/// The first position holds the id, and no earlier position does; without a
/// first position no entry holds it.
pub proof fn lemma_first_position<T>(ids: Seq<T>, id: T)
    ensures
        match first_position(ids, id) {
            Some(i) => 0 <= i < ids.len() && ids[i] == id && forall|j: int|
                0 <= j < i ==> ids[j] != id,
            None => forall|j: int| 0 <= j < ids.len() ==> ids[j] != id,
        },
    decreases ids.len(),
{
    if ids.len() > 0 {
        let rest = ids.drop_last();
        lemma_first_position(rest, id);
        assert(forall|j: int| 0 <= j < rest.len() ==> rest[j] == ids[j]);
        assert(ids.last() == ids[ids.len() - 1]);
    }
}

/// The index of the item that carries `id`: the first position of `ids` that
/// holds it, or `id` converted to an index when there is none.
pub fn find_item_index(ids: &Vec<i32>, id: i32) -> (r: usize)
    ensures
        r == item_index(ids@, id),
{
    let mut i: usize = 0;
    while i < ids.len()
        invariant
            0 <= i <= ids.len(),
            first_position(ids@.take(i as int), id) is None,
        decreases ids.len() - i,
    {
        proof {
            assert(ids@.take(i + 1).drop_last() =~= ids@.take(i as int));
        }
        if ids[i] == id {
            proof {
                assert(first_position(ids@.take(i + 1), id) == Some(i as int));
                lemma_first_position_prefix(ids@, id, i + 1);
            }
            return i;
        }
        i += 1;
    }
    proof {
        assert(ids@.take(ids.len() as int) =~= ids@);
    }
    id as usize
}

/// A first position found in a prefix is the first position in the whole.
proof fn lemma_first_position_prefix<T>(ids: Seq<T>, id: T, k: int)
    requires
        0 <= k <= ids.len(),
        first_position(ids.take(k), id) is Some,
    ensures
        first_position(ids, id) == first_position(ids.take(k), id),
    decreases ids.len() - k,
{
    if k < ids.len() {
        assert(ids.take(k + 1).drop_last() =~= ids.take(k));
        lemma_first_position_prefix(ids, id, k + 1);
    } else {
        assert(ids.take(k) =~= ids);
    }
}

/// An order of `n` items: every index below `n` exactly once.
pub open spec fn is_order(s: Seq<usize>, n: nat) -> bool {
    &&& s.len() == n
    &&& s.no_duplicates()
    &&& forall|i: int| 0 <= i < s.len() ==> s[i] < n
}

/// The indices `0, 1, ..., n - 1` in increasing order.
pub open spec fn identity_order(n: nat) -> Seq<usize> {
    Seq::new(n, |i: int| i as usize)
}

/// The indices below `n` form a set of `n` elements, as a sequence without
/// duplicates.
proof fn lemma_identity_order(n: nat)
    requires
        n <= usize::MAX,
    ensures
        identity_order(n).no_duplicates(),
        identity_order(n).to_set().len() == n,
        forall|x: usize| identity_order(n).to_set().contains(x) <==> x < n,
{
    let id = identity_order(n);
    id.unique_seq_to_set();
    assert forall|x: usize| id.to_set().contains(x) <==> x < n by {
        if x < n {
            assert(id[x as int] == x);
        }
    }
}

/// A sequence without duplicates, of indices below `n`, that holds each of
/// them is an order of `n` items.
pub proof fn lemma_order_from_cover(s: Seq<usize>, n: nat)
    requires
        n <= usize::MAX,
        s.no_duplicates(),
        forall|i: int| 0 <= i < s.len() ==> s[i] < n,
        forall|x: usize| x < n ==> s.contains(x),
    ensures
        is_order(s, n),
{
    broadcast use vstd::seq_lib::seq_to_set_is_finite;

    lemma_identity_order(n);
    let id = identity_order(n);
    assert(s.to_set() =~= id.to_set());
    s.unique_seq_to_set();
}

/// An order of `n` items holds every index below `n`.
pub proof fn lemma_order_covers(s: Seq<usize>, n: nat)
    requires
        n <= usize::MAX,
        is_order(s, n),
    ensures
        forall|x: usize| x < n ==> s.contains(x),
{
    broadcast use vstd::seq_lib::seq_to_set_is_finite;

    lemma_identity_order(n);
    let id = identity_order(n);
    s.unique_seq_to_set();
    assert(s.to_set().subset_of(id.to_set()));
    vstd::set_lib::lemma_subset_equality(s.to_set(), id.to_set());
    assert forall|x: usize| x < n implies s.contains(x) by {
        assert(id.to_set().contains(x));
        assert(s.to_set().contains(x));
    }
}

/// A rearrangement of an order of `n` items is again one.
pub proof fn lemma_permutation_keeps_order(c: Seq<usize>, p: Seq<usize>, n: nat)
    requires
        is_order(p, n),
        is_permutation_of(c, p),
    ensures
        is_order(c, n),
{
    lemma_permutation_of_distinct(c, p);
    assert forall|i: int| 0 <= i < c.len() implies c[i] < n by {
        assert(c.contains(c[i]));
        let j = choose|j: int| 0 <= j < p.len() && p[j] == c[i];
    }
}

/// The position of the first occurrence of `x` in `order`, if any.
pub fn position_of(order: &Vec<usize>, x: usize) -> (r: Option<usize>)
    ensures
        match r {
            Some(i) => first_position(order@, x) == Some(i as int),
            None => first_position(order@, x) is None,
        },
{
    let mut i: usize = 0;
    while i < order.len()
        invariant
            0 <= i <= order.len(),
            first_position(order@.take(i as int), x) is None,
        decreases order.len() - i,
    {
        proof {
            assert(order@.take(i + 1).drop_last() =~= order@.take(i as int));
        }
        if order[i] == x {
            proof {
                assert(first_position(order@.take(i + 1), x) == Some(i as int));
                lemma_first_position_prefix(order@, x, i + 1);
            }
            return Some(i);
        }
        i += 1;
    }
    proof {
        assert(order@.take(order.len() as int) =~= order@);
    }
    None
}

/// Two orders of the same items are rearrangements of each other.
pub proof fn lemma_orders_permute(a: Seq<usize>, b: Seq<usize>, n: nat)
    requires
        n <= usize::MAX,
        is_order(a, n),
        is_order(b, n),
    ensures
        is_permutation_of(a, b),
{
    lemma_order_covers(a, n);
    lemma_order_covers(b, n);
    assert forall|x: usize| a.contains(x) <==> b.contains(x) by {
        if a.contains(x) {
            let i = choose|i: int| 0 <= i < a.len() && a[i] == x;
        }
        if b.contains(x) {
            let i = choose|i: int| 0 <= i < b.len() && b[i] == x;
        }
    }
    lemma_distinct_same_elements_permutation(a, b);
}

} // verus!
