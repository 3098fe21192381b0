//! A population of packing orders and its passage from one generation to the
//! next: elitism, then children bred by the genetic operators.
use crate::common::order::{identity_order, is_order, is_permutation_of, lemma_permutation_keeps_order};
use crate::common::random::{gen_index, shuffle_range};
use crate::optimizer::mutators::{
    bin_preservation_crossover, crossover, insert_mutation, scramble_mutation, space_mutation,
    swap_mutation,
};
use crate::optimizer::ranking::{is_stable_ranking, lemma_stable_ranking_unique, rank_indices};
use rand::rngs::ThreadRng;
use std::collections::HashSet;
use vstd::prelude::*;

verus! {

broadcast use vstd::std_specs::hash::group_hash_axioms;

/// A genetic operator that breeds a child order.
#[derive(Debug, Clone, Copy, PartialEq, Eq, Structural)]
pub enum Modifier {
    Crossover,
    Swap,
    Space,
    Insert,
    BinPreservation,
    Scramble,
}

/// What the packing of a parent order tells the operators that read it: the
/// ids of the items in its best-filled bin (empty when it has no non-empty
/// bin) and the id of the item with the most empty space beyond it, if any.
#[derive(Debug)]
pub struct ParentInfo {
    pub best_bin_ids: Vec<i32>,
    pub target_box_id: Option<i32>,
}

/// The item ids are distinct, one per item.
pub open spec fn ids_are_distinct(original_ids: Seq<i32>, item_count: nat) -> bool {
    original_ids.len() == item_count && original_ids.no_duplicates()
}

/// The best bin of a parent holds distinct items among the known ones.
pub open spec fn info_is_consistent(info: ParentInfo, original_ids: Seq<i32>) -> bool {
    &&& info.best_bin_ids@.no_duplicates()
    &&& forall|i: int|
        0 <= i < info.best_bin_ids.len() ==> original_ids.contains(#[trigger] info.best_bin_ids@[i])
}

/// Whether no id occurs twice: the condition under which a population can
/// breed.
pub fn has_distinct_ids(ids: &Vec<i32>) -> (r: bool)
    ensures
        r == ids@.no_duplicates(),
{
    let mut seen: HashSet<i32> = HashSet::new();
    let mut i: usize = 0;
    while i < ids.len()
        invariant
            0 <= i <= ids.len(),
            seen@ == ids@.take(i as int).to_set(),
            ids@.take(i as int).no_duplicates(),
        decreases ids.len() - i,
    {
        let id = ids[i];
        if seen.contains(&id) {
            proof {
                assert(ids@.take(i as int).contains(id));
                let j = choose|j: int| 0 <= j < i && ids@.take(i as int)[j] == id;
                assert(ids@[j] == ids@[i as int]);
            }
            return false;
        }
        proof {
            ids@.take(i as int).lemma_push_to_set_commute(id);
            assert(ids@.take(i + 1) =~= ids@.take(i as int).push(id));
        }
        seen.insert(id);
        i += 1;
    }
    proof {
        assert(ids@.take(ids.len() as int) =~= ids@);
    }
    true
}

/// Whether what is known of a parent fits the items: its best bin lists
/// known ids, each once (`info_is_consistent`).
pub fn parent_info_fits(info: &ParentInfo, ids: &Vec<i32>) -> (r: bool)
    ensures
        r == info_is_consistent(*info, ids@),
{
    let mut known: HashSet<i32> = HashSet::new();
    let mut k: usize = 0;
    while k < ids.len()
        invariant
            0 <= k <= ids.len(),
            known@ == ids@.take(k as int).to_set(),
        decreases ids.len() - k,
    {
        proof {
            ids@.take(k as int).lemma_push_to_set_commute(ids@[k as int]);
            assert(ids@.take(k + 1) =~= ids@.take(k as int).push(ids@[k as int]));
        }
        known.insert(ids[k]);
        k += 1;
    }
    proof {
        assert(ids@.take(ids.len() as int) =~= ids@);
        assert forall|x: i32| known@.contains(x) == ids@.contains(x) by {
            if ids@.contains(x) {
                let j = choose|j: int| 0 <= j < ids.len() && ids@[j] == x;
                assert(ids@.to_set().contains(x));
            }
        }
    }
    let best = &info.best_bin_ids;
    let mut i: usize = 0;
    while i < best.len()
        invariant
            0 <= i <= best.len(),
            best@ == info.best_bin_ids@,
            forall|x: i32| known@.contains(x) == ids@.contains(x),
            forall|j: int| 0 <= j < i ==> ids@.contains(#[trigger] best@[j]),
        decreases best.len() - i,
    {
        if !known.contains(&best[i]) {
            proof {
                assert(!ids@.contains(info.best_bin_ids@[i as int]));
            }
            return false;
        }
        i += 1;
    }
    has_distinct_ids(best)
}

/// The stable ranking of the given keys (it exists and is unique, see
/// `rank_indices` and `lemma_stable_ranking_unique`).
pub open spec fn ranking_of(keys: Seq<u64>, descending: bool) -> Seq<usize> {
    choose|order: Seq<usize>| is_stable_ranking(order, keys, descending)
}

/// How many of the best orders are drawn from as parents: the elite, but at
/// least one.
pub open spec fn parent_pool_size(elite_count: nat, population_size: nat) -> nat {
    let e = if elite_count < population_size {
        elite_count
    } else {
        population_size
    };
    if e < 1 {
        1
    } else {
        e
    }
}

/// What each operator may breed from `current` and `second`, for the
/// parent information `info`: an order crossover at some cuts, two genes
/// exchanged, the emptiest item's gene exchanged with another, a gene moved,
/// the exact bin-preservation child, or a slice scrambled. Orders too short
/// to change come back unchanged.
pub open spec fn bred(
    modifier: Modifier,
    current: Seq<usize>,
    second: Seq<usize>,
    info: ParentInfo,
    original_ids: Seq<i32>,
    child: Seq<usize>,
) -> bool {
    match modifier {
        Modifier::Crossover => if current.len() == 0 {
            child == Seq::<usize>::empty()
        } else {
            exists|cut1: int, cut2: int|
                0 <= cut1 <= cut2 < current.len() && child == #[trigger] crossover::crossover_child(
                    current,
                    second,
                    cut1,
                    cut2,
                )
        },
        Modifier::Swap => if current.len() < 2 {
            child == current
        } else {
            exists|i: int, j: int|
                0 <= i < current.len() && 0 <= j < current.len() && i != j && child
                    == #[trigger] swap_mutation::swapped(current, i, j)
        },
        Modifier::Space => match space_mutation::target_position(
            current,
            info.target_box_id,
            original_ids,
        ) {
            Some(p) => exists|q: int|
                0 <= q < current.len() && q != p && child == #[trigger] swap_mutation::swapped(
                    current,
                    p,
                    q,
                ),
            None => child == current,
        },
        Modifier::Insert => if current.len() < 2 {
            child == current
        } else {
            exists|from: int, to: int|
                0 <= from < current.len() && 0 <= to < current.len() && child
                    == #[trigger] insert_mutation::moved(current, from, to)
        },
        Modifier::BinPreservation => child == bin_preservation_crossover::preservation_child(
            info.best_bin_ids@,
            original_ids,
            second,
        ),
        Modifier::Scramble => if current.len() < 2 {
            child == current
        } else {
            exists|start: int, end: int|
                0 <= start <= end < current.len() && #[trigger] scramble_mutation::scrambled_between(
                    child,
                    current,
                    start,
                    end,
                )
        },
    }
}

/// The order `child` was bred by one of the operators from two parents
/// among the best `pool` orders of the ranking, the first of them described
/// by its parent information.
pub open spec fn bred_from_elite(
    orders: Seq<Vec<usize>>,
    ranking: Seq<usize>,
    pool: int,
    modifiers: Seq<Modifier>,
    parents: Seq<ParentInfo>,
    original_ids: Seq<i32>,
    child: Seq<usize>,
) -> bool {
    exists|a: int, b: int, m: int|
        0 <= a < pool && 0 <= b < pool && 0 <= m < modifiers.len() && #[trigger] bred(
            modifiers[m],
            orders[ranking[a] as int]@,
            orders[ranking[b] as int]@,
            parents[a],
            original_ids,
            child,
        )
}

/// How many of the best orders are drawn from as parents
/// (`parent_pool_size`).
pub fn parent_pool(elite_count: usize, population_size: usize) -> (n: usize)
    ensures
        n == parent_pool_size(elite_count as nat, population_size as nat),
{
    let e = if elite_count < population_size {
        elite_count
    } else {
        population_size
    };
    if e < 1 {
        1
    } else {
        e
    }
}

/// The child that `modifier` breeds from `current` and `second`.
pub fn breed(
    rng: &mut ThreadRng,
    modifier: Modifier,
    current: &Vec<usize>,
    second: &Vec<usize>,
    info: &ParentInfo,
    original_ids: &Vec<i32>,
) -> (child: Vec<usize>)
    requires
        modifier == Modifier::Crossover ==> current.len() <= second.len(),
    ensures
        bred(modifier, current@, second@, *info, original_ids@, child@),
        modifier != Modifier::BinPreservation && modifier != Modifier::Crossover
            ==> is_permutation_of(child@, current@),
        forall|n: nat|
            is_order(current@, n) && is_order(second@, n) && ids_are_distinct(original_ids@, n)
                && info_is_consistent(*info, original_ids@) ==> #[trigger] is_order(child@, n),
{
    let child = match modifier {
        Modifier::Crossover => crossover::modify(rng, current, second),
        Modifier::Swap => swap_mutation::modify(rng, current),
        Modifier::Space => space_mutation::modify(rng, current, info.target_box_id, original_ids),
        Modifier::Insert => insert_mutation::modify(rng, current),
        Modifier::BinPreservation => bin_preservation_crossover::modify(
            &info.best_bin_ids,
            original_ids,
            second,
        ),
        Modifier::Scramble => scramble_mutation::modify(rng, current),
    };
    proof {
        assert forall|n: nat|
            is_order(current@, n) && is_order(second@, n) && ids_are_distinct(original_ids@, n)
                && info_is_consistent(*info, original_ids@) implies #[trigger] is_order(
            child@,
            n,
        ) by {
            if modifier == Modifier::BinPreservation {
                bin_preservation_crossover::lemma_preservation_child_is_order(
                    info.best_bin_ids@,
                    original_ids@,
                    second@,
                );
            } else if modifier == Modifier::Crossover {
                crate::common::order::lemma_orders_permute(second@, current@, n);
                lemma_permutation_keeps_order(child@, current@, n);
            } else {
                lemma_permutation_keeps_order(child@, current@, n);
            }
        }
    }
    child
}

/// The indices `0, 1, ..., n - 1`.
pub fn identity_vec(n: usize) -> (order: Vec<usize>)
    ensures
        order@ == identity_order(n as nat),
        is_order(order@, n as nat),
{
    let mut order: Vec<usize> = Vec::new();
    let mut i: usize = 0;
    while i < n
        invariant
            0 <= i <= n,
            order@ == identity_order(i as nat),
        decreases n - i,
    {
        order.push(i);
        i += 1;
        proof {
            assert(order@ =~= identity_order(i as nat));
        }
    }
    proof {
        assert forall|a: int, b: int| 0 <= a < n && 0 <= b < n && a != b implies order[a]
            != order[b] by {}
    }
    order
}

/// The packing orders of a genetic optimizer and the settings that shape its
/// generations.
pub struct Population {
    pub box_orders: Vec<Vec<usize>>,
    pub item_count: usize,
    pub population_size: usize,
    pub elite_count: usize,
    pub growing_bin: bool,
    pub modifiers: Vec<Modifier>,
}

impl Population {
    /// Every order is an order of the items, there are at least as many as the
    /// population size, and there is an operator to breed with.
    pub open spec fn wf(&self) -> bool {
        &&& forall|i: int|
            0 <= i < self.box_orders.len() ==> is_order(
                #[trigger] self.box_orders@[i]@,
                self.item_count as nat,
            )
        &&& self.box_orders.len() >= self.population_size
        &&& self.modifiers.len() > 0
    }

    /// Scores rank descending (more is better) unless the bin grows, where the
    /// smaller extent is better.
    pub open spec fn descending(&self) -> bool {
        !self.growing_bin
    }

    /// A new population for `volume_keys.len()` items, seeded by
    /// `generate_initial_population`.
    pub fn new(
        rng: &mut ThreadRng,
        volume_keys: &Vec<u64>,
        longest_side_keys: &Vec<u64>,
        population_size: usize,
        elite_count: usize,
        growing_bin: bool,
        modifiers: Vec<Modifier>,
    ) -> (pop: Population)
        requires
            volume_keys.len() == longest_side_keys.len(),
            modifiers.len() > 0,
        ensures
            pop.wf(),
            pop.item_count == volume_keys.len(),
            pop.population_size == population_size,
            pop.elite_count == elite_count,
            pop.growing_bin == growing_bin,
            pop.modifiers@ == modifiers@,
            pop.box_orders.len() == if population_size < 3 {
                3
            } else {
                population_size
            },
            is_stable_ranking(pop.box_orders@[0]@, volume_keys@, false),
            is_stable_ranking(pop.box_orders@[1]@, volume_keys@, true),
            is_stable_ranking(pop.box_orders@[2]@, longest_side_keys@, true),
    {
        let mut pop = Population {
            box_orders: Vec::new(),
            item_count: volume_keys.len(),
            population_size,
            elite_count,
            growing_bin,
            modifiers,
        };
        pop.generate_initial_population(rng, volume_keys, longest_side_keys);
        pop
    }

    /// Seeds the population: the items by growing volume, by shrinking volume
    /// and by shrinking longest side (each sort stable), then random orders
    /// until there are at least `population_size` orders. `volume_keys` and
    /// `longest_side_keys` order the items as their volumes and longest sides
    /// do.
    pub fn generate_initial_population(
        &mut self,
        rng: &mut ThreadRng,
        volume_keys: &Vec<u64>,
        longest_side_keys: &Vec<u64>,
    )
        requires
            volume_keys.len() == old(self).item_count,
            longest_side_keys.len() == old(self).item_count,
            forall|i: int|
                0 <= i < old(self).box_orders.len() ==> is_order(
                    #[trigger] old(self).box_orders@[i]@,
                    old(self).item_count as nat,
                ),
            old(self).modifiers.len() > 0,
        ensures
            final(self).wf(),
            final(self).item_count == old(self).item_count,
            final(self).population_size == old(self).population_size,
            final(self).elite_count == old(self).elite_count,
            final(self).growing_bin == old(self).growing_bin,
            final(self).modifiers@ == old(self).modifiers@,
            final(self).box_orders@.take(old(self).box_orders.len() as int) == old(
                self,
            ).box_orders@,
            final(self).box_orders.len() == if old(self).box_orders.len() + 3
                < old(self).population_size {
                old(self).population_size as int
            } else {
                old(self).box_orders.len() + 3
            },
            is_stable_ranking(
                final(self).box_orders@[old(self).box_orders.len() as int]@,
                volume_keys@,
                false,
            ),
            is_stable_ranking(
                final(self).box_orders@[old(self).box_orders.len() + 1]@,
                volume_keys@,
                true,
            ),
            is_stable_ranking(
                final(self).box_orders@[old(self).box_orders.len() + 2]@,
                longest_side_keys@,
                true,
            ),
    {
        let ghost start = self.box_orders@;
        let ghost s0: int = start.len() as int;
        let n = self.item_count;
        self.box_orders.push(rank_indices(volume_keys, false));
        self.box_orders.push(rank_indices(volume_keys, true));
        self.box_orders.push(rank_indices(longest_side_keys, true));
        while self.box_orders.len() < self.population_size
            invariant
                n == self.item_count,
                self.box_orders.len() >= s0 + 3,
                self.box_orders.len() == s0 + 3 || self.box_orders.len() <= self.population_size,
                s0 == start.len(),
                self.box_orders@.take(s0 + 3) == old(self).box_orders@.push(
                    self.box_orders@[s0],
                ).push(self.box_orders@[s0 + 1]).push(self.box_orders@[s0 + 2]),
                self.box_orders@.take(s0) == start,
                start == old(self).box_orders@,
                forall|i: int|
                    0 <= i < self.box_orders.len() ==> is_order(
                        #[trigger] self.box_orders@[i]@,
                        n as nat,
                    ),
                is_stable_ranking(self.box_orders@[s0]@, volume_keys@, false),
                is_stable_ranking(self.box_orders@[s0 + 1]@, volume_keys@, true),
                is_stable_ranking(self.box_orders@[s0 + 2]@, longest_side_keys@, true),
                self.population_size == old(self).population_size,
                self.item_count == old(self).item_count,
                self.elite_count == old(self).elite_count,
                self.growing_bin == old(self).growing_bin,
                self.modifiers@ == old(self).modifiers@,
            decreases self.population_size - self.box_orders.len(),
        {
            let mut order = identity_vec(n);
            if n > 0 {
                let ghost before = order@;
                shuffle_range(rng, &mut order, 0, n - 1);
                proof {
                    assert(order@.subrange(0, n as int) =~= order@);
                    assert(before.subrange(0, n as int) =~= before);
                    lemma_permutation_keeps_order(order@, before, n as nat);
                }
            }
            let ghost prev = self.box_orders@;
            self.box_orders.push(order);
            proof {
                assert(self.box_orders@.take(s0 + 3) =~= prev.take(s0 + 3));
                assert(self.box_orders@.take(s0) =~= prev.take(s0));
            }
        }
    }

    /// Takes the number of orders held as the population size: after the
    /// seeding this is the requested size, or three when fewer were asked
    /// for.
    pub fn size_to_orders(&mut self)
        requires
            old(self).wf(),
        ensures
            final(self).wf(),
            final(self).population_size == old(self).box_orders.len(),
            final(self).box_orders@ == old(self).box_orders@,
            final(self).item_count == old(self).item_count,
            final(self).elite_count == old(self).elite_count,
            final(self).growing_bin == old(self).growing_bin,
            final(self).modifiers@ == old(self).modifiers@,
    {
        self.population_size = self.box_orders.len();
    }

    /// The next generation. The first `population_size` orders are ranked by
    /// their score keys (`score_keys[i]` orders the score of order `i`),
    /// highest first unless the bin grows, equal scores in their present
    /// order. The best `elite_count` of them survive unchanged; the others are
    /// replaced by children, each bred by a random operator from two random
    /// parents among the best `max(1, elite_count)`. `parents[a]` describes the
    /// packing of the parent ranked `a`, and `original_ids` gives the ids of
    /// the items by index.
    pub fn advance_generation(
        &mut self,
        rng: &mut ThreadRng,
        score_keys: &Vec<u64>,
        parents: &Vec<ParentInfo>,
        original_ids: &Vec<i32>,
    )
        requires
            old(self).wf(),
            score_keys.len() >= old(self).population_size,
            parents.len() >= parent_pool_size(
                old(self).elite_count as nat,
                old(self).population_size as nat,
            ),
            ids_are_distinct(original_ids@, old(self).item_count as nat),
            forall|i: int|
                0 <= i < parents.len() ==> info_is_consistent(
                    #[trigger] parents@[i],
                    original_ids@,
                ),
        ensures
            final(self).wf(),
            final(self).item_count == old(self).item_count,
            final(self).population_size == old(self).population_size,
            final(self).elite_count == old(self).elite_count,
            final(self).growing_bin == old(self).growing_bin,
            final(self).modifiers@ == old(self).modifiers@,
            final(self).box_orders.len() == old(self).population_size,
            forall|k: int|
                0 <= k < old(self).elite_count && k < old(self).population_size
                    ==> #[trigger] final(self).box_orders@[k]@ == old(self).box_orders@[ranking_of(
                    score_keys@.take(old(self).population_size as int),
                    old(self).descending(),
                )[k] as int]@,
            forall|k: int|
                old(self).elite_count <= k < old(self).population_size ==> bred_from_elite(
                    old(self).box_orders@,
                    ranking_of(
                        score_keys@.take(old(self).population_size as int),
                        old(self).descending(),
                    ),
                    parent_pool_size(
                        old(self).elite_count as nat,
                        old(self).population_size as nat,
                    ) as int,
                    old(self).modifiers@,
                    parents@,
                    original_ids@,
                    #[trigger] final(self).box_orders@[k]@,
                ),
    {
        let pop = self.population_size;
        let n = self.item_count;
        let mut keys: Vec<u64> = Vec::new();
        let mut i: usize = 0;
        while i < pop
            invariant
                0 <= i <= pop <= score_keys.len(),
                keys@ == score_keys@.take(i as int),
            decreases pop - i,
        {
            keys.push(score_keys[i]);
            i += 1;
            proof {
                assert(keys@ =~= score_keys@.take(i as int));
            }
        }
        let ranking = rank_indices(&keys, !self.growing_bin);
        proof {
            lemma_stable_ranking_unique(
                ranking@,
                ranking_of(keys@, !self.growing_bin),
                keys@,
                !self.growing_bin,
            );
        }
        let elites = if self.elite_count < pop {
            self.elite_count
        } else {
            pop
        };
        let mut next_gen: Vec<Vec<usize>> = Vec::new();
        let mut k: usize = 0;
        while k < elites
            invariant
                self.wf(),
                pop == self.population_size,
                n == self.item_count,
                elites <= pop,
                0 <= k <= elites,
                is_stable_ranking(ranking@, keys@, !self.growing_bin),
                keys.len() == pop,
                next_gen.len() == k,
                forall|j: int|
                    0 <= j < k ==> #[trigger] next_gen@[j]@ == self.box_orders@[ranking@[j] as int]@,
                forall|j: int| 0 <= j < next_gen.len() ==> is_order(#[trigger] next_gen@[j]@, n as nat),
            decreases elites - k,
        {
            next_gen.push(self.box_orders[ranking[k]].clone());
            k += 1;
        }
        let max_elite = parent_pool(self.elite_count, pop);
        while next_gen.len() < pop
            invariant
                self.wf(),
                pop == self.population_size,
                n == self.item_count,
                elites <= pop,
                max_elite == parent_pool_size(self.elite_count as nat, pop as nat),
                parents.len() >= max_elite,
                is_stable_ranking(ranking@, keys@, !self.growing_bin),
                keys.len() == pop,
                next_gen.len() >= elites,
                next_gen.len() <= pop || next_gen.len() == elites,
                forall|j: int|
                    0 <= j < elites ==> #[trigger] next_gen@[j]@ == self.box_orders@[ranking@[j] as int]@,
                forall|j: int| 0 <= j < next_gen.len() ==> is_order(#[trigger] next_gen@[j]@, n as nat),
                ids_are_distinct(original_ids@, n as nat),
                forall|j: int|
                    0 <= j < parents.len() ==> info_is_consistent(
                        #[trigger] parents@[j],
                        original_ids@,
                    ),
                elites == if self.elite_count < pop {
                    self.elite_count
                } else {
                    pop
                },
                forall|j: int|
                    elites <= j < next_gen.len() ==> bred_from_elite(
                        self.box_orders@,
                        ranking@,
                        max_elite as int,
                        self.modifiers@,
                        parents@,
                        original_ids@,
                        #[trigger] next_gen@[j]@,
                    ),
            decreases pop - next_gen.len(),
        {
            let m = gen_index(rng, 0, self.modifiers.len());
            let a = gen_index(rng, 0, max_elite);
            let b = gen_index(rng, 0, max_elite);
            let current = &self.box_orders[ranking[a]];
            let second = &self.box_orders[ranking[b]];
            proof {
                assert(is_order(current@, n as nat));
                assert(is_order(second@, n as nat));
                assert(info_is_consistent(parents@[a as int], original_ids@));
            }
            let child = breed(rng, self.modifiers[m], current, second, &parents[a], original_ids);
            proof {
                assert(bred(
                    self.modifiers@[m as int],
                    self.box_orders@[ranking@[a as int] as int]@,
                    self.box_orders@[ranking@[b as int] as int]@,
                    parents@[a as int],
                    original_ids@,
                    child@,
                ));
            }
            next_gen.push(child);
        }
        self.box_orders = next_gen;
    }

    /// The first `population_size` orders, flattened row by row into 32-bit
    /// integers.
    pub fn get_current_orders_flat(&self) -> (flat: Vec<i32>)
        requires
            self.wf(),
            self.population_size * self.item_count <= usize::MAX,
        ensures
            flat.len() == self.population_size * self.item_count,
            flat@ == flat_rows(
                self.box_orders@,
                self.population_size as nat,
                self.item_count as nat,
            ),
    {
        flatten_orders(&self.box_orders, self.population_size, self.item_count)
    }

    /// The first order of the population, as 32-bit integers.
    pub fn get_best_order(&self) -> (best: Vec<i32>)
        requires
            self.wf(),
            self.box_orders.len() > 0,
        ensures
            best.len() == self.item_count,
            forall|i: int| 0 <= i < self.item_count ==> best[i] == self.box_orders@[0]@[i] as i32,
    {
        let first = &self.box_orders[0];
        let mut best: Vec<i32> = Vec::new();
        let mut i: usize = 0;
        while i < self.item_count
            invariant
                0 <= i <= self.item_count,
                first@ == self.box_orders@[0]@,
                first.len() == self.item_count,
                best.len() == i,
                forall|j: int| 0 <= j < i ==> best[j] == first@[j] as i32,
            decreases self.item_count - i,
        {
            best.push(first[i] as i32);
            i += 1;
        }
        best
    }
}

/// A row of an order padded with zeros to `width` entries, as 32-bit integers.
pub open spec fn padded_row(row: Seq<usize>, width: nat) -> Seq<i32> {
    Seq::new(width, |c: int| if c < row.len() { row[c] as i32 } else { 0i32 })
}

/// The first `k` orders as padded rows, one after another.
pub open spec fn flat_rows(orders: Seq<Vec<usize>>, k: nat, width: nat) -> Seq<i32>
    decreases k,
{
    if k == 0 {
        Seq::empty()
    } else {
        flat_rows(orders, (k - 1) as nat, width) + padded_row(orders[k - 1]@, width)
    }
}

/// Entry `b` of row `p` stands at `p * width + b`.
pub proof fn lemma_flat_rows_index(orders: Seq<Vec<usize>>, k: nat, width: nat, p: int, b: int)
    requires
        0 <= p < k,
        0 <= b < width,
    ensures
        flat_rows(orders, k, width).len() == k * width,
        flat_rows(orders, k, width)[p * width + b] == padded_row(orders[p]@, width)[b],
    decreases k,
{
    lemma_flat_rows_len(orders, k, width);
    lemma_flat_rows_len(orders, (k - 1) as nat, width);
    if p < k - 1 {
        lemma_flat_rows_index(orders, (k - 1) as nat, width, p, b);
        assert(p * width + b < (k - 1) * width) by (nonlinear_arith)
            requires
                p <= k - 2,
                b < width,
        ;
    } else {
        assert(p * width == (k - 1) * width);
    }
}

/// The rows take `width` entries each.
pub proof fn lemma_flat_rows_len(orders: Seq<Vec<usize>>, k: nat, width: nat)
    ensures
        flat_rows(orders, k, width).len() == k * width,
    decreases k,
{
    if k > 0 {
        let j = (k - 1) as nat;
        lemma_flat_rows_len(orders, j, width);
        assert(j * width + width == k * width) by (nonlinear_arith)
            requires
                j + 1 == k,
        ;
        assert(flat_rows(orders, k, width).len() == flat_rows(orders, j, width).len() + width);
    } else {
        assert(k * width == 0) by (nonlinear_arith)
            requires
                k == 0,
        ;
    }
}

/// The first `count` orders, each padded with zeros to `width` entries,
/// flattened row by row into 32-bit integers.
pub fn flatten_orders(orders: &Vec<Vec<usize>>, count: usize, width: usize) -> (flat: Vec<i32>)
    requires
        count <= orders.len(),
        count * width <= usize::MAX,
    ensures
        flat@ == flat_rows(orders@, count as nat, width as nat),
        flat.len() == count * width,
{
    let mut flat: Vec<i32> = Vec::new();
    let mut p: usize = 0;
    while p < count
        invariant
            0 <= p <= count,
            count <= orders.len(),
            flat@ == flat_rows(orders@, p as nat, width as nat),
        decreases count - p,
    {
        let row = &orders[p];
        let mut b: usize = 0;
        while b < width
            invariant
                0 <= b <= width,
                p < count <= orders.len(),
                row@ == orders@[p as int]@,
                flat@ == flat_rows(orders@, p as nat, width as nat) + padded_row(
                    row@,
                    width as nat,
                ).take(b as int),
            decreases width - b,
        {
            let v: i32 = if b < row.len() {
                row[b] as i32
            } else {
                0
            };
            flat.push(v);
            proof {
                assert(padded_row(row@, width as nat).take(b + 1) =~= padded_row(
                    row@,
                    width as nat,
                ).take(b as int).push(v));
            }
            b += 1;
        }
        proof {
            assert(padded_row(row@, width as nat).take(width as int) =~= padded_row(
                row@,
                width as nat,
            ));
        }
        p += 1;
    }
    proof {
        lemma_flat_rows_len(orders@, count as nat, width as nat);
    }
    flat
}

} // verus!
