//! Random-number supply: a seeded generator handle threaded explicitly
//! through sampling and scattering, so that a fixed seed reproduces a render.

use vstd::prelude::*;

verus! {

#[verifier::external_type_specification]
#[verifier::external_body]
pub struct ExStdRng(rand::rngs::StdRng);

/// Relies on rand::SeedableRng::seed_from_u64: builds a generator whose
/// stream is a function of the seed alone.
#[verifier::external_body]
pub fn rng_from_seed(seed: u64) -> (r: rand::rngs::StdRng) {
    <rand::rngs::StdRng as rand::SeedableRng>::seed_from_u64(seed)
}

/// Relies on rand::RngCore::next_u32: a random 32-bit draw. Nothing more
/// can be said of a random value, so no `ensures` narrows it.
#[verifier::external_body]
pub fn next_bits(rng: &mut rand::rngs::StdRng) -> (r: u32) {
    rand::RngCore::next_u32(rng)
}

/// A random fixed-point scalar in [0, 1): sixteen random fractional bits.
pub fn random_unit(rng: &mut rand::rngs::StdRng) -> (r: i64)
    ensures
        0 <= r < 65536,
{
    let bits = next_bits(rng);
    (bits % 65536) as i64
}

} // verus!
