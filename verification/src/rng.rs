//! Random number supply.
//!
//! All randomness in the renderer flows through this module: a seeded
//! generator from the `rand` crate, consulted only through a wrapper that
//! yields a fixed-point value in a half-open range. Nothing is assumed
//! about which value comes back, only that it lies in the range, so every
//! caller is verified for every possible outcome.

use vstd::prelude::*;

verus! {

use rand::Rng;
use rand::SeedableRng;

#[verifier::external_type_specification]
#[verifier::external_body]
pub struct ExStdRng(rand::rngs::StdRng);

/// Relies on rand's `SeedableRng::seed_from_u64`: builds a generator
/// from a 64-bit seed.
#[verifier::external_body]
pub(crate) fn rng_from_seed(seed: u64) -> rand::rngs::StdRng {
    rand::rngs::StdRng::seed_from_u64(seed)
}

/// Relies on rand's `Rng::gen_range`, which on `lo..hi` panics for an
/// empty range and otherwise samples uniformly from `[lo, hi)`.
#[verifier::external_body]
pub(crate) fn rand_range(rng: &mut rand::rngs::StdRng, lo: i64, hi: i64) -> (r: i64)
    requires
        lo < hi,
    ensures
        lo <= r < hi,
{
    rng.gen_range(lo..hi)
}

} // verus!
