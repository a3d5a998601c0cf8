//! Seeded random draws, taken from the `rand` crate.

use rand::rngs::StdRng;
use rand::seq::SliceRandom;
use rand::{Rng, SeedableRng};
use vstd::prelude::*;

verus! {

/// The random number generator, `rand::rngs::StdRng`.
#[verifier::external_type_specification]
#[verifier::external_body]
pub struct ExStdRng(StdRng);

/// The generator that `StdRng::seed_from_u64` makes of a seed.
pub uninterp spec fn rng_seeded(seed: u64) -> StdRng;

/// What `Rng::gen_range(0..bound)` draws from a generator on machines whose `usize` has
/// this many bits, and the generator that it leaves behind.
pub uninterp spec fn rng_below(rng: StdRng, bound: usize, bits: u32) -> (usize, StdRng);

/// The position that `SliceRandom::choose` takes in a slice of a given length,
/// and the generator that it leaves behind.
pub uninterp spec fn rng_position(rng: StdRng, len: nat) -> (nat, StdRng);

/// `StdRng::seed_from_u64`: the result is a function of the seed alone.
#[verifier::external_body]
pub(crate) fn seeded_rng(seed: u64) -> (rng: StdRng)
    ensures
        rng == rng_seeded(seed),
{
    StdRng::seed_from_u64(seed)
}

/// `Rng::gen_range(0..bound)` on `usize`: the draw lies below the bound, and the
/// draw and the next state are functions of the state, the bound and the number of
/// bits of a `usize` alone. It panics on an empty range.
#[verifier::external_body]
pub(crate) fn draw_below(rng: &mut StdRng, bound: usize) -> (value: usize)
    requires
        bound > 0,
    ensures
        value < bound,
        (value, *final(rng)) == rng_below(*old(rng), bound, usize::BITS),
{
    rng.gen_range(0..bound)
}

/// `SliceRandom::choose`: nothing of an empty slice, without a draw, and else the
/// item at a position that is a function of the state and the length alone.
#[verifier::external_body]
pub(crate) fn draw_item(rng: &mut StdRng, items: &[u64]) -> (item: Option<u64>)
    ensures
        item is None <==> items@.len() == 0,
        item is None ==> *final(rng) == *old(rng),
        item is Some ==> rng_position(*old(rng), items@.len()).0 < items@.len(),
        item is Some ==> item == Some(items@[rng_position(*old(rng), items@.len()).0 as int]),
        item is Some ==> *final(rng) == rng_position(*old(rng), items@.len()).1,
{
    items.choose(rng).copied()
}

} // verus!
