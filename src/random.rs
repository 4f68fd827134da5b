use vstd::prelude::*;
use rand::rngs::StdRng;

verus! {

#[verifier::external_type_specification]
#[verifier::external_body]
pub struct ExStdRng(StdRng);

/// Relies on rand_core's `SeedableRng::seed_from_u64`: a generator whose
/// stream is fixed by the seed.
#[verifier::external_body]
pub(crate) fn seeded_rng(seed: u64) -> (r: StdRng) {
    <StdRng as rand::SeedableRng>::seed_from_u64(seed)
}

/// Relies on rand's `rng()` and `RngCore::next_u64`: a seed taken from the
/// thread-local generator, which the system's entropy seeds.
#[verifier::external_body]
pub(crate) fn entropy_seed() -> (r: u64) {
    rand::RngCore::next_u64(&mut rand::rng())
}

/// Relies on rand_core's `RngCore::next_u64`: the next 64 bits of the stream.
#[verifier::external_body]
pub(crate) fn next_draw(rng: &mut StdRng) -> (r: u64) {
    rand::RngCore::next_u64(rng)
}

/// Relies on rand's `Rng::random_range` over an inclusive range of `i32`,
/// which returns a value inside the range and panics only on an empty one.
#[verifier::external_body]
pub(crate) fn draw_i32_in(rng: &mut StdRng, low: i32, high: i32) -> (r: i32)
    requires
        low <= high,
    ensures
        low <= r <= high,
{
    rand::Rng::random_range(rng, low..=high)
}

/// Relies on rand's `Rng::random_range` over an inclusive range of `usize`,
/// which returns a value inside the range and panics only on an empty one.
#[verifier::external_body]
pub(crate) fn draw_usize_in(rng: &mut StdRng, low: usize, high: usize) -> (r: usize)
    requires
        low <= high,
    ensures
        low <= r <= high,
{
    rand::Rng::random_range(rng, low..=high)
}

/// Relies on rand's `SliceRandom::shuffle`, which permutes the slice in place
/// by swapping its elements.
#[verifier::external_body]
pub(crate) fn shuffle_in_place(rng: &mut StdRng, v: &mut Vec<usize>)
    ensures
        final(v)@.to_multiset() == old(v)@.to_multiset(),
        final(v)@.len() == old(v)@.len(),
{
    rand::seq::SliceRandom::shuffle(v.as_mut_slice(), rng)
}

} // verus!
