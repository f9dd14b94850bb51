//! The seeded generators of the `rand` crates, as far as the library draws
//! from them. A generator is a function of its seed: what it hands out
//! depends on nothing but the state it is in and on what is asked of it.

use crate::mesh::Coord;
use vstd::prelude::*;

verus! {

/// `rand::rngs::StdRng`, the generator of the queue. Nothing is claimed of
/// what is inside it.
#[verifier::external_type_specification]
#[verifier::external_body]
pub struct ExStdRng(rand::rngs::StdRng);

/// `rand_pcg::Mcg128Xsl64`, which the crate also calls `Pcg64Mcg`. Nothing
/// is claimed of what is inside it.
#[verifier::external_type_specification]
#[verifier::external_body]
pub struct ExMcg128Xsl64(rand_pcg::Mcg128Xsl64);

/// The state that a `StdRng` is in.
pub uninterp spec fn std_rng_state(g: rand::rngs::StdRng) -> Seq<u8>;

/// The state of a `StdRng` fresh from `seed_from_u64`.
pub uninterp spec fn std_rng_seeded(seed: u64) -> Seq<u8>;

/// What `gen_range(0..bound)` does on a `StdRng` in the given state: the state
/// it leaves and the number it returns.
pub uninterp spec fn std_rng_below(state: Seq<u8>, bound: u64) -> (Seq<u8>, u64);

/// The state that a `Pcg64Mcg` is in.
pub uninterp spec fn pcg_state(g: rand_pcg::Mcg128Xsl64) -> u128;

/// The state of a `Pcg64Mcg` fresh from `seed_from_u64`.
pub uninterp spec fn pcg_seeded(seed: u64) -> u128;

/// What `gen_range(low..high)` over `u32` does on a `Pcg64Mcg` in the given
/// state: the state it leaves and the number it returns.
pub uninterp spec fn pcg_between(state: u128, low: u32, high: u32) -> (u128, u32);

/// What `gen_range(0..bound)` over `u64` does on a `Pcg64Mcg` in the given
/// state: the state it leaves and the number it returns.
pub uninterp spec fn pcg_below(state: u128, bound: u64) -> (u128, u64);

/// What `shuffle` does with a `Pcg64Mcg` in the given state: the state it
/// leaves and the order it puts the items in.
pub uninterp spec fn pcg_shuffled(state: u128, items: Seq<Coord>) -> (u128, Seq<Coord>);

/// Calls `StdRng::seed_from_u64`, which builds the generator from the seed
/// alone.
#[verifier::external_body]
pub(crate) fn std_rng_from_seed(seed: u64) -> (g: rand::rngs::StdRng)
    ensures
        std_rng_state(g) == std_rng_seeded(seed),
{
    rand::SeedableRng::seed_from_u64(seed)
}

/// Calls `Rng::gen_range` on a `StdRng` with the range `0..bound`, which the
/// crate refuses when it is empty. The number returned lies in the range.
#[verifier::external_body]
pub(crate) fn std_rng_gen_below(g: &mut rand::rngs::StdRng, bound: u64) -> (r: u64)
    requires
        bound > 0,
    ensures
        r < bound,
        (std_rng_state(*final(g)), r) == std_rng_below(std_rng_state(*old(g)), bound),
{
    rand::Rng::gen_range(g, 0..bound)
}

/// Calls `Pcg64Mcg::seed_from_u64`, which builds the generator from the seed
/// alone.
#[verifier::external_body]
pub(crate) fn pcg_from_seed(seed: u64) -> (g: rand_pcg::Mcg128Xsl64)
    ensures
        pcg_state(g) == pcg_seeded(seed),
{
    rand::SeedableRng::seed_from_u64(seed)
}

/// Calls `Rng::gen_range` on a `Pcg64Mcg` with the range `low..high` over
/// `u32`, which the crate refuses when it is empty. The number returned lies
/// in the range.
#[verifier::external_body]
pub(crate) fn pcg_gen_between(g: &mut rand_pcg::Mcg128Xsl64, low: u32, high: u32) -> (r: u32)
    requires
        low < high,
    ensures
        low <= r < high,
        (pcg_state(*final(g)), r) == pcg_between(pcg_state(*old(g)), low, high),
{
    rand::Rng::gen_range(g, low..high)
}

/// Calls `Rng::gen_range` on a `Pcg64Mcg` with the range `0..bound` over
/// `u64`, which the crate refuses when it is empty. The number returned lies
/// in the range.
#[verifier::external_body]
pub(crate) fn pcg_gen_below(g: &mut rand_pcg::Mcg128Xsl64, bound: u64) -> (r: u64)
    requires
        bound > 0,
    ensures
        r < bound,
        (pcg_state(*final(g)), r) == pcg_below(pcg_state(*old(g)), bound),
{
    rand::Rng::gen_range(g, 0..bound)
}

/// Calls `SliceRandom::shuffle` on the items with a `Pcg64Mcg`. The crate
/// swaps items in place, so the items are the same ones in another order.
#[verifier::external_body]
pub(crate) fn pcg_shuffle(g: &mut rand_pcg::Mcg128Xsl64, items: &mut Vec<Coord>)
    ensures
        (pcg_state(*final(g)), final(items)@) == pcg_shuffled(pcg_state(*old(g)), old(items)@),
        final(items)@.to_multiset() == old(items)@.to_multiset(),
{
    rand::seq::SliceRandom::shuffle(items.as_mut_slice(), g)
}

} // verus!
