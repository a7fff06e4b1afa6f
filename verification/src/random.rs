//! The random choices of the game referees and players, made with the
//! `rand` crate's thread-local generator.
use vstd::prelude::*;
use rand::Rng;
use rand::seq::SliceRandom;

verus! {

/// Shuffles `v` in place with `rand::seq::SliceRandom::shuffle` and
/// `rand::thread_rng`. The contract claims only that the result is a
/// rearrangement of the same elements (the crate swaps elements in place);
/// which order comes out is left open.
#[verifier::external_body]
pub(crate) fn shuffle<T>(v: &mut Vec<T>)
    ensures
        final(v)@.len() == old(v)@.len(),
        final(v)@.to_multiset() == old(v)@.to_multiset(),
{
    v.shuffle(&mut rand::thread_rng());
}

/// A random number in `lo..=hi`, from `rand::Rng::gen_range` with
/// `rand::thread_rng` (which panics on an empty range). Which number comes
/// out is left open.
#[verifier::external_body]
pub(crate) fn random_in_range(lo: usize, hi: usize) -> (r: usize)
    requires
        lo <= hi,
    ensures
        lo <= r <= hi,
{
    rand::thread_rng().gen_range(lo..=hi)
}

/// A random element of a non-empty slice, from
/// `rand::seq::SliceRandom::choose` with `rand::thread_rng` (which picks an
/// element of the slice); which one comes out is left open.
#[verifier::external_body]
pub(crate) fn random_element<T: Copy>(s: &[T]) -> (e: T)
    requires
        s@.len() > 0,
    ensures
        s@.contains(e),
{
    *s.choose(&mut rand::thread_rng()).unwrap()
}

} // verus!
