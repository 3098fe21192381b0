//! The random choices the genetic operators make, drawn from `rand`.
use rand::rngs::ThreadRng;
use rand::seq::SliceRandom;
use vstd::prelude::*;

verus! {

/// The thread-local generator of `rand`, carried through the operators as is.
#[verifier::external_type_specification]
#[verifier::external_body]
pub struct ExThreadRng(ThreadRng);

/// `rand::thread_rng`: hands out the thread-local generator. Nothing is
/// promised about its state.
#[verifier::external_body]
pub fn thread_rng() -> ThreadRng {
    rand::thread_rng()
}

/// `Rng::gen_range` on the half-open range `low..high`. The source asserts that
/// the range is not empty and samples uniformly from it; the contract states
/// only that the value lies in the range, since it is drawn at random.
#[verifier::external_body]
pub fn gen_index(rng: &mut ThreadRng, low: usize, high: usize) -> (r: usize)
    requires
        low < high,
    ensures
        low <= r < high,
{
    rand::Rng::gen_range(rng, low..high)
}

/// `SliceRandom::shuffle` applied to the positions `start..=end` of `v`. The
/// source shuffles by swapping positions inside that slice only, so the
/// contract states that the other positions keep their values and that the
/// slice keeps its elements; which order comes out is left to chance.
#[verifier::external_body]
pub fn shuffle_range(rng: &mut ThreadRng, v: &mut Vec<usize>, start: usize, end: usize)
    requires
        start <= end < old(v).len(),
    ensures
        final(v).len() == old(v).len(),
        forall|i: int| 0 <= i < old(v).len() && !(start <= i <= end) ==> final(v)[i] == old(v)[i],
        final(v)@.subrange(start as int, end + 1).to_multiset() == old(v)@.subrange(
            start as int,
            end + 1,
        ).to_multiset(),
{
    v[start..=end].shuffle(rng);
}

/// Draws an index below `size` that differs from `excluded`, each such index
/// with the same chance: an index below `size - 1` is drawn and the ones at or
/// above `excluded` are moved up by one.
pub fn gen_other_index(rng: &mut ThreadRng, size: usize, excluded: usize) -> (r: usize)
    requires
        2 <= size,
        excluded < size,
    ensures
        r < size,
        r != excluded,
{
    let r = gen_index(rng, 0, size - 1);
    if r >= excluded {
        r + 1
    } else {
        r
    }
}

} // verus!
