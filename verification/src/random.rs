use vstd::prelude::*;
use rand::seq::SliceRandom;
use rand::Rng;

verus! {

/// Relies on rand::Rng::gen_range over `0..bound`: a uniform draw below
/// `bound`.  gen_range panics on an empty range; the precondition rules
/// that out.
#[verifier::external_body]
pub(crate) fn rand_index(bound: usize) -> (drawn: usize)
    requires
        bound >= 1,
    ensures
        drawn < bound,
{
    rand::thread_rng().gen_range(0..bound)
}

/// Relies on rand::Rng::gen_range over `lo..=hi`: a uniform draw from the
/// closed word range.  gen_range panics on an empty range; the precondition
/// rules that out.
#[verifier::external_body]
pub(crate) fn rand_word(lo: u64, hi: u64) -> (drawn: u64)
    requires
        lo <= hi,
    ensures
        lo <= drawn <= hi,
{
    rand::thread_rng().gen_range(lo..=hi)
}

/// Relies on rand::seq::SliceRandom::shuffle: a Fisher-Yates shuffle that
/// permutes the slice in place by swaps, so the contents as a multiset are
/// unchanged.
#[verifier::external_body]
pub(crate) fn shuffle<T>(v: &mut Vec<T>)
    ensures
        final(v)@.len() == old(v)@.len(),
        final(v)@.to_multiset() == old(v)@.to_multiset(),
{
    v.shuffle(&mut rand::thread_rng());
}

/// A coin flip that comes up true with probability `num / den`: nothing is
/// promised of the outcome, only that the draw is well defined.
pub(crate) fn bernoulli(num: u64, den: u64) -> bool
    requires
        den >= 1,
{
    rand_word(0, den - 1) < num
}

} // verus!
