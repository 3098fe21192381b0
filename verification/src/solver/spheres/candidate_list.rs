//! The list of candidate gaps of a bin: each gap once, found again by its
//! canonical key.
use crate::optimizer::ranking::{is_stable_ranking, lemma_stable_ranking_unique, rank_indices};
use crate::optimizer::population::ranking_of;
use vstd::prelude::*;

verus! {

/// A candidate gap: its canonical key and what the packer keeps about it.
pub struct Candidate<P> {
    pub key: [u64; 3],
    pub data: P,
}

/// Candidate gaps in the order the packer visits them. No two share a key.
pub struct CandidateList<P> {
    candidates: Vec<Candidate<P>>,
}

/// No two entries share a key.
pub open spec fn keys_distinct<P>(entries: Seq<([u64; 3], P)>) -> bool {
    forall|i: int, j: int| 0 <= i < entries.len() && 0 <= j < entries.len() && i != j ==> #[trigger] entries[i].0 != #[trigger] entries[j].0
}

/// Some entry has the key.
pub open spec fn has_key<P>(entries: Seq<([u64; 3], P)>, key: [u64; 3]) -> bool {
    exists|i: int| 0 <= i < entries.len() && entries[i].0 == key
}

/// The position of an entry with the key (the only one, when keys are
/// distinct).
pub open spec fn key_position<P>(entries: Seq<([u64; 3], P)>, key: [u64; 3]) -> int {
    choose|i: int| 0 <= i < entries.len() && entries[i].0 == key
}

/// A candidate added under a new key is found at the end of the list, and
/// the keys stay distinct: the list recognises every gap it holds by its key.
pub proof fn lemma_added_key_is_found<P>(entries: Seq<([u64; 3], P)>, key: [u64; 3], data: P)
    requires
        keys_distinct(entries),
        !has_key(entries, key),
    ensures
        keys_distinct(entries.push((key, data))),
        has_key(entries.push((key, data)), key),
        key_position(entries.push((key, data)), key) == entries.len(),
{
    let grown = entries.push((key, data));
    assert(grown[entries.len() as int].0 == key);
    assert forall|i: int, j: int|
        0 <= i < grown.len() && 0 <= j < grown.len() && i != j implies #[trigger] grown[i].0
        != #[trigger] grown[j].0 by {
        if i < entries.len() && j < entries.len() {
            assert(entries[i].0 != entries[j].0);
        } else if i < entries.len() {
            assert(entries[i].0 != key);
        } else {
            assert(entries[j].0 != key);
        }
    }
}

/// The entries without the one of the key, if listed: the last entry takes
/// its place.
pub open spec fn without_key<P>(entries: Seq<([u64; 3], P)>, key: [u64; 3]) -> Seq<([u64; 3], P)> {
    if has_key(entries, key) {
        entries.update(key_position(entries, key), entries.last()).drop_last()
    } else {
        entries
    }
}

/// The entries with the new ones added in order, each unless its key is
/// already listed.
pub open spec fn with_entries<P>(entries: Seq<([u64; 3], P)>, added: Seq<([u64; 3], P)>) -> Seq<
    ([u64; 3], P),
>
    decreases added.len(),
{
    if added.len() == 0 {
        entries
    } else {
        let before = with_entries(entries, added.drop_last());
        if has_key(before, added.last().0) {
            before
        } else {
            before.push(added.last())
        }
    }
}

/// The first `max_len` entries.
pub open spec fn truncated<P>(entries: Seq<([u64; 3], P)>, max_len: nat) -> Seq<([u64; 3], P)> {
    if max_len < entries.len() {
        entries.take(max_len as int)
    } else {
        entries
    }
}

/// One update step after a placement: the consumed gap leaves, the new gaps
/// are added in order, and the list is cut to `max_len`.
pub open spec fn update_step<P>(
    entries: Seq<([u64; 3], P)>,
    consumed: [u64; 3],
    added: Seq<([u64; 3], P)>,
    max_len: nat,
) -> Seq<([u64; 3], P)> {
    truncated(with_entries(without_key(entries, consumed), added), max_len)
}

/// Adding entries keeps the keys distinct, grows the list by at most their
/// number, and brings in no key but theirs.
pub proof fn lemma_with_entries<P>(entries: Seq<([u64; 3], P)>, added: Seq<([u64; 3], P)>)
    requires
        keys_distinct(entries),
    ensures
        keys_distinct(with_entries(entries, added)),
        with_entries(entries, added).len() <= entries.len() + added.len(),
        forall|k: [u64; 3]|
            #[trigger] has_key(with_entries(entries, added), k) ==> has_key(entries, k) || exists|i: int|
                0 <= i < added.len() && added[i].0 == k,
    decreases added.len(),
{
    if added.len() > 0 {
        let rest = added.drop_last();
        lemma_with_entries(entries, rest);
        let before = with_entries(entries, rest);
        let e = added.last();
        if !has_key(before, e.0) {
            lemma_added_key_is_found(before, e.0, e.1);
        }
        let result = with_entries(entries, added);
        assert forall|k: [u64; 3]| #[trigger] has_key(result, k) implies has_key(entries, k) || exists|
            i: int,
        | 0 <= i < added.len() && added[i].0 == k by {
            let j = choose|j: int| 0 <= j < result.len() && result[j].0 == k;
            if j < before.len() {
                assert(has_key(before, k));
                if !has_key(entries, k) {
                    let i = choose|i: int| 0 <= i < rest.len() && rest[i].0 == k;
                    assert(added[i].0 == k);
                }
            } else {
                assert(added[added.len() - 1].0 == k);
            }
        }
    }
}

/// The law of an update step: the keys stay distinct, the list holds at most
/// `max_len` gaps, the consumed gap takes one place away while each new gap
/// takes at most one, and the consumed gap is gone unless it is among the
/// new ones.
pub proof fn lemma_update_step<P>(
    entries: Seq<([u64; 3], P)>,
    consumed: [u64; 3],
    added: Seq<([u64; 3], P)>,
    max_len: nat,
)
    requires
        keys_distinct(entries),
    ensures
        keys_distinct(update_step(entries, consumed, added, max_len)),
        update_step(entries, consumed, added, max_len).len() <= max_len,
        update_step(entries, consumed, added, max_len).len() + (if has_key(entries, consumed) {
            1int
        } else {
            0int
        }) <= entries.len() + added.len(),
        (forall|i: int| 0 <= i < added.len() ==> added[i].0 != consumed) ==> !has_key(
            update_step(entries, consumed, added, max_len),
            consumed,
        ),
{
    let removed = without_key(entries, consumed);
    if has_key(entries, consumed) {
        let p = key_position(entries, consumed);
        assert forall|a: int, b: int|
            0 <= a < removed.len() && 0 <= b < removed.len() && a != b implies #[trigger] removed[a].0
            != #[trigger] removed[b].0 by {
            let ia = if a == p { entries.len() - 1 } else { a };
            let ib = if b == p { entries.len() - 1 } else { b };
            assert(removed[a] == entries[ia]);
            assert(removed[b] == entries[ib]);
        }
        assert forall|i: int| 0 <= i < removed.len() implies removed[i].0 != consumed by {
            let ii = if i == p { entries.len() - 1 } else { i };
            assert(removed[i] == entries[ii]);
        }
    }
    assert(!has_key(removed, consumed));
    lemma_with_entries(removed, added);
    let grown = with_entries(removed, added);
    let result = update_step(entries, consumed, added, max_len);
    if (forall|i: int| 0 <= i < added.len() ==> added[i].0 != consumed) {
        if has_key(result, consumed) {
            let j = choose|j: int| 0 <= j < result.len() && result[j].0 == consumed;
            assert(grown[j].0 == consumed);
            assert(has_key(grown, consumed));
        }
    }
}

impl<P> View for CandidateList<P> {
    type V = Seq<([u64; 3], P)>;

    closed spec fn view(&self) -> Seq<([u64; 3], P)> {
        self.candidates@.map_values(|c: Candidate<P>| (c.key, c.data))
    }
}

impl<P> CandidateList<P> {
    /// An empty list.
    pub fn new() -> (list: Self)
        ensures
            list@ == Seq::<([u64; 3], P)>::empty(),
    {
        let list = CandidateList { candidates: Vec::new() };
        proof {
            assert(list@ =~= Seq::<([u64; 3], P)>::empty());
        }
        list
    }

    /// The number of candidates.
    pub fn len(&self) -> (n: usize)
        ensures
            n == self@.len(),
    {
        self.candidates.len()
    }

    /// Whether there is no candidate.
    pub fn is_empty(&self) -> (r: bool)
        ensures
            r == (self@.len() == 0),
    {
        self.candidates.len() == 0
    }

    /// The key of candidate `i`.
    pub fn key_at(&self, i: usize) -> (key: [u64; 3])
        requires
            i < self@.len(),
        ensures
            key == self@[i as int].0,
    {
        self.candidates[i].key
    }

    /// What the packer keeps about candidate `i`.
    pub fn get(&self, i: usize) -> (data: &P)
        requires
            i < self@.len(),
        ensures
            *data == self@[i as int].1,
    {
        &self.candidates[i].data
    }

    /// The position of the candidate with the given key, if there is one.
    pub fn find(&self, key: &[u64; 3]) -> (r: Option<usize>)
        ensures
            match r {
                Some(i) => i < self@.len() && self@[i as int].0 == *key,
                None => forall|i: int| 0 <= i < self@.len() ==> self@[i].0 != *key,
            },
    {
        let mut i: usize = 0;
        while i < self.candidates.len()
            invariant
                0 <= i <= self.candidates.len(),
                self@.len() == self.candidates.len(),
                forall|j: int| 0 <= j < i ==> self@[j].0 != *key,
            decreases self.candidates.len() - i,
        {
            let k = &self.candidates[i].key;
            proof {
                assert(self@[i as int].0 == *k);
            }
            if k[0] == key[0] && k[1] == key[1] && k[2] == key[2] {
                proof {
                    assert(*k =~= *key);
                }
                return Some(i);
            }
            proof {
                assert(k[0] != key[0] || k[1] != key[1] || k[2] != key[2]);
            }
            i += 1;
        }
        None
    }

    /// Adds a candidate unless one with the same key is already listed, in
    /// which case the list is left as it is; says whether it was added.
    pub fn add(&mut self, key: [u64; 3], data: P) -> (added: bool)
        requires
            keys_distinct(old(self)@),
        ensures
            keys_distinct(final(self)@),
            added == forall|i: int| 0 <= i < old(self)@.len() ==> old(self)@[i].0 != key,
            added ==> final(self)@ == old(self)@.push((key, data)),
            !added ==> final(self)@ == old(self)@,
    {
        match self.find(&key) {
            Some(_) => false,
            None => {
                self.candidates.push(Candidate { key, data });
                proof {
                    assert(self@ =~= old(self)@.push((key, data)));
                }
                true
            },
        }
    }

    /// Replaces what is kept about candidate `i`; its key stays.
    pub fn replace(&mut self, i: usize, data: P)
        requires
            i < old(self)@.len(),
        ensures
            final(self)@ == old(self)@.update(i as int, (old(self)@[i as int].0, data)),
    {
        let key = self.candidates[i].key;
        self.candidates.set(i, Candidate { key, data });
        proof {
            assert(self@ =~= old(self)@.update(i as int, (old(self)@[i as int].0, data)));
        }
    }

    /// Removes candidate `i`; the last candidate takes its place.
    pub fn remove_index(&mut self, i: usize)
        requires
            i < old(self)@.len(),
            keys_distinct(old(self)@),
        ensures
            keys_distinct(final(self)@),
            final(self)@ == old(self)@.update(i as int, old(self)@.last()).drop_last(),
    {
        self.candidates.swap_remove(i);
        proof {
            assert(self@ =~= old(self)@.update(i as int, old(self)@.last()).drop_last());
        }
    }

    /// Removes the candidate with the given key, if one is listed.
    pub fn remove_key(&mut self, key: &[u64; 3])
        requires
            keys_distinct(old(self)@),
        ensures
            keys_distinct(final(self)@),
            forall|i: int| 0 <= i < final(self)@.len() ==> final(self)@[i].0 != *key,
            has_key(old(self)@, *key) ==> final(self)@ == old(self)@.update(
                key_position(old(self)@, *key),
                old(self)@.last(),
            ).drop_last(),
            !has_key(old(self)@, *key) ==> final(self)@ == old(self)@,
    {
        if let Some(i) = self.find(key) {
            proof {
                let j = key_position(old(self)@, *key);
                assert(old(self)@[i as int].0 == *key);
                assert(j == i);
            }
            self.remove_index(i);
        }
    }

    /// Keeps the first `max_len` candidates.
    pub fn truncate(&mut self, max_len: usize)
        requires
            keys_distinct(old(self)@),
        ensures
            keys_distinct(final(self)@),
            final(self)@ == if max_len < old(self)@.len() {
                old(self)@.take(max_len as int)
            } else {
                old(self)@
            },
    {
        self.candidates.truncate(max_len);
        proof {
            if max_len < old(self)@.len() {
                assert(self@ =~= old(self)@.take(max_len as int));
            } else {
                assert(self@ =~= old(self)@);
            }
        }
    }
}

impl<P: Copy> CandidateList<P> {

    /// One update step after a placement: removes the consumed gap, adds the
    /// new gaps in order (a key already listed keeps its gap), and keeps the
    /// first `max_len` gaps.
    pub fn apply_update(&mut self, consumed: &[u64; 3], added: &Vec<([u64; 3], P)>, max_len: usize)
        requires
            keys_distinct(old(self)@),
        ensures
            final(self)@ == update_step(old(self)@, *consumed, added@, max_len as nat),
            keys_distinct(final(self)@),
            final(self)@.len() <= max_len,
            final(self)@.len() + (if has_key(old(self)@, *consumed) {
                1int
            } else {
                0int
            }) <= old(self)@.len() + added.len(),
            (forall|i: int| 0 <= i < added.len() ==> added@[i].0 != *consumed) ==> !has_key(
                final(self)@,
                *consumed,
            ),
    {
        self.remove_key(consumed);
        let ghost removed = self@;
        proof {
            assert(removed == without_key(old(self)@, *consumed));
            assert(added@.take(0) =~= Seq::<([u64; 3], P)>::empty());
        }
        let mut i: usize = 0;
        while i < added.len()
            invariant
                0 <= i <= added.len(),
                keys_distinct(self@),
                self@ == with_entries(removed, added@.take(i as int)),
            decreases added.len() - i,
        {
            let (key, data) = added[i];
            proof {
                assert(added@.take(i + 1).drop_last() =~= added@.take(i as int));
                assert(added@.take(i + 1).last() == (key, data));
            }
            self.add(key, data);
            i += 1;
        }
        proof {
            assert(added@.take(added.len() as int) =~= added@);
        }
        self.truncate(max_len);
        proof {
            lemma_update_step(old(self)@, *consumed, added@, max_len as nat);
        }
    }
    /// Sorts the candidates by their score keys, ascending, equal keys keeping
    /// their order; `score_keys[i]` orders the score of candidate `i`.
    pub fn sort_by_keys(&mut self, score_keys: &Vec<u64>)
        requires
            score_keys.len() == old(self)@.len(),
            keys_distinct(old(self)@),
        ensures
            keys_distinct(final(self)@),
            final(self)@ == ranking_of(score_keys@, false).map_values(|r: usize| old(self)@[r as int]),
    {
        let ranking = rank_indices(score_keys, false);
        proof {
            lemma_stable_ranking_unique(ranking@, ranking_of(score_keys@, false), score_keys@, false);
        }
        let mut sorted: Vec<Candidate<P>> = Vec::new();
        let mut i: usize = 0;
        while i < ranking.len()
            invariant
                0 <= i <= ranking.len(),
                is_stable_ranking(ranking@, score_keys@, false),
                score_keys.len() == self@.len(),
                self.candidates.len() == self@.len(),
                sorted.len() == i,
                forall|j: int|
                    0 <= j < i ==> ((#[trigger] sorted@[j]).key, sorted@[j].data) == self@[ranking@[j] as int],
            decreases ranking.len() - i,
        {
            let r = ranking[i];
            let key = self.candidates[r].key;
            let data = self.candidates[r].data;
            proof {
                assert(self@[r as int] == (key, data));
            }
            sorted.push(Candidate { key, data });
            i += 1;
        }
        let ghost before = self@;
        self.candidates = sorted;
        proof {
            assert(self@ =~= ranking@.map_values(|r: usize| before[r as int]));
            assert forall|a: int, b: int| 0 <= a < self@.len() && 0 <= b < self@.len() && a != b implies #[trigger] self@[a].0 != #[trigger] self@[b].0 by {
                assert(ranking@[a] != ranking@[b]);
                assert(before[ranking@[a] as int].0 != before[ranking@[b] as int].0);
            }
        }
    }
}

} // verus!
