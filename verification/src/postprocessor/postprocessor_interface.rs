//! The interface of a pass over a finished packing, and the rule by which a
//! last-bin pass hands its result back.
use vstd::prelude::*;

verus! {

/// A pass over a finished packing: the bins in the order they were filled,
/// each the vector of items placed in it, and the bin they were packed into.
pub trait Postprocessor<I, C>: Send + Sync {
    /// Rewrites the packing in place. A pass typically touches only the last
    /// bin, but it sees the whole packing.
    fn process(&self, solution: &mut [Vec<I>], bin: &C);
}

/// The bin a last-bin pass works on: the last one, provided there is a bin
/// and it holds at least one item.
pub open spec fn last_bin_target<I>(solution: Seq<Vec<I>>) -> Option<int> {
    if solution.len() > 0 && solution.last().len() > 0 {
        Some(solution.len() - 1)
    } else {
        None
    }
}

/// Whether the items that a last-bin pass repacked replace the last bin:
/// there was a bin to repack, everything went into a single bin, and no item
/// was left out.
pub open spec fn splice_applies<I>(solution: Seq<Vec<I>>, repacked: Seq<I>, single_bin: bool) -> bool {
    &&& last_bin_target(solution) is Some
    &&& single_bin
    &&& repacked.len() == solution.last().len()
}

/// The index of the bin that a last-bin pass repacks, or `None` when the
/// packing is empty or its last bin holds nothing (the pass then leaves the
/// packing as it is).
pub fn last_bin_to_repack<I>(solution: &[Vec<I>]) -> (r: Option<usize>)
    ensures
        match r {
            Some(i) => last_bin_target(solution@) == Some(i as int),
            None => last_bin_target(solution@) is None,
        },
{
    let n = solution.len();
    if n == 0 {
        return None;
    }
    if solution[n - 1].len() == 0 {
        None
    } else {
        Some(n - 1)
    }
}

/// Hands back the result of a last-bin pass: the repacked items replace the
/// last bin when `splice_applies`, and the packing stays as it was otherwise.
/// No other bin is touched and the number of bins never changes.
pub fn splice_last_bin<I>(solution: &mut [Vec<I>], repacked: Vec<I>, single_bin: bool) -> (spliced:
    bool)
    ensures
        spliced == splice_applies(old(solution)@, repacked@, single_bin),
        spliced ==> final(solution)@ == old(solution)@.update(old(solution)@.len() - 1, repacked),
        !spliced ==> final(solution)@ == old(solution)@,
{
    let target = last_bin_to_repack(&*solution);
    match target {
        Some(last) => {
            if single_bin && repacked.len() == solution[last].len() {
                solution[last] = repacked;
                true
            } else {
                false
            }
        },
        None => false,
    }
}

} // verus!
