//! Randomness for the generator: thin trusted wrappers around the seeded
//! pseudo-random generator the workload is drawn from.
//!
//! The generator handle is threaded explicitly through every call that needs
//! randomness; nothing here promises which values come out, only the bounds
//! and the alphabet that hold of every outcome.

use crate::all_alnum;
use crate::Key;
use vstd::prelude::*;

verus! {

/// The pseudo-random generator a run draws from.
#[verifier::external_type_specification]
#[verifier::external_body]
pub struct ExXoshiro256Plus(rand_xoshiro::Xoshiro256Plus);

/// Relies on rand_core's SeedableRng::seed_from_u64: returns a generator
/// seeded from the given word. Nothing is stated of the state it starts in.
#[verifier::external_body]
pub fn rng_from_seed(seed: u64) -> rand_xoshiro::Xoshiro256Plus {
    <rand_xoshiro::Xoshiro256Plus as rand::SeedableRng>::seed_from_u64(seed)
}

/// Relies on rand's Rng::random_range over `0..bound`: the sample lies in
/// the (non-empty) range.
#[verifier::external_body]
pub fn rng_below(rng: &mut rand_xoshiro::Xoshiro256Plus, bound: usize) -> (r: usize)
    requires
        bound >= 1,
    ensures
        r < bound,
{
    rand::Rng::random_range(rng, 0..bound)
}

/// Relies on rand's Alphanumeric distribution: every sampled byte is drawn
/// from `[A-Za-z0-9]`, and exactly `len` of them are taken.
#[verifier::external_body]
pub fn rng_alnum_string(rng: &mut rand_xoshiro::Xoshiro256Plus, len: usize) -> (r: Key)
    ensures
        r@.len() == len,
        all_alnum(r@),
{
    rand::Rng::sample_iter(rng, rand::distr::Alphanumeric).take(len).collect()
}

} // verus!
