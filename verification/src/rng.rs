//! Seeded pseudo-random source shared by the simulations. Each simulation
//! owns one generator, constructed from a caller-supplied seed, so runs are
//! reproducible under a fixed seed.

use vstd::prelude::*;

verus! {

#[verifier::external_type_specification]
#[verifier::external_body]
pub struct ExStdRng(rand::rngs::StdRng);

/// Relies on rand::SeedableRng::seed_from_u64: constructs a generator from
/// a 64-bit seed.
#[verifier::external_body]
pub fn rng_from_seed(seed: u64) -> rand::rngs::StdRng {
    <rand::rngs::StdRng as rand::SeedableRng>::seed_from_u64(seed)
}

/// Relies on rand::Rng::gen::<bool>: a random draw; nothing holds of which
/// side comes up.
#[verifier::external_body]
pub fn coin_flip(rng: &mut rand::rngs::StdRng) -> bool {
    rand::Rng::gen::<bool>(rng)
}

/// Relies on rand::Rng::gen_range over `0..n`: a draw from a non-empty
/// range, so the result is always below `n`.
#[verifier::external_body]
pub fn rand_below(rng: &mut rand::rngs::StdRng, n: u32) -> (r: u32)
    requires
        n >= 1,
    ensures
        r < n,
{
    rand::Rng::gen_range(rng, 0..n)
}

} // verus!
