//! The pseudo-random generator, passed explicitly so that callers can seed
//! it and reproduce a run.  Nothing is assumed about the values drawn:
//! every function that consumes them states what holds of any outcome.

use vstd::prelude::*;

verus! {

/// Declares rand's `StdRng` so the generator can appear in signatures; the
/// value is opaque to verification.
#[verifier::external_type_specification]
#[verifier::external_body]
pub struct ExStdRng(rand::rngs::StdRng);

/// Relies on rand's `SeedableRng::seed_from_u64`: builds a generator from
/// a 64-bit seed; equal seeds give equal generators.
#[verifier::external_body]
pub fn rng_from_seed(seed: u64) -> rand::rngs::StdRng {
    <rand::rngs::StdRng as rand::SeedableRng>::seed_from_u64(seed)
}

/// Relies on rand's `Rng::next_u64`: draws the generator's next value.
/// Nothing can be promised of a random value.
#[verifier::external_body]
pub fn rng_next(rng: &mut rand::rngs::StdRng) -> u64 {
    rand::Rng::next_u64(rng)
}

} // verus!
