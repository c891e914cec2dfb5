//! Randomness for the simulator, drawn from the `rand` crate.
//!
//! Every stochastic operation of the core (mutation, crossover shuffling,
//! survivor pairing, placement) goes through the functions here. Nothing is
//! assumed about which values come back beyond what `rand` documents: a draw
//! from a range lies in that range, and a shuffle permutes its input.

use vstd::prelude::*;

verus! {

/// Relies on `rand::random::<u32>`: returns an arbitrary 32-bit value.
/// Nothing can be promised about which one.
#[verifier::external_body]
pub fn rand_u32() -> u32 {
    rand::random::<u32>()
}

/// Relies on `rand::Rng::gen_range` over `0..n`: returns a value uniformly
/// drawn from that range; it panics only on an empty range, which the
/// precondition rules out.
#[verifier::external_body]
pub fn rand_below(n: usize) -> (r: usize)
    requires
        n > 0,
    ensures
        r < n,
{
    rand::Rng::gen_range(&mut rand::thread_rng(), 0..n)
}

/// Relies on `rand::seq::SliceRandom::shuffle`: reorders the elements in
/// place (a Fisher-Yates permutation), so the multiset of elements and the
/// length are kept.
#[verifier::external_body]
pub fn shuffle_usizes(v: &mut Vec<usize>)
    ensures
        final(v)@.len() == old(v)@.len(),
        final(v)@.to_multiset() == old(v)@.to_multiset(),
{
    rand::seq::SliceRandom::shuffle(v.as_mut_slice(), &mut rand::thread_rng())
}

} // verus!
