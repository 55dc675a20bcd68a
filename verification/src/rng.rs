//! Seeded pseudo-random numbers (`rand`'s `StdRng`).
use vstd::prelude::*;
use rand::rngs::StdRng;
use rand::{Rng, SeedableRng};

verus! {

#[verifier::external_type_specification]
#[verifier::external_body]
pub struct ExStdRng(StdRng);

/// A generator seeded with `seed` (`StdRng::seed_from_u64`).
///
/// Trusted, with nothing promised: its state is opaque here.
#[verifier::external_body]
pub(crate) fn seeded_rng(seed: u64) -> StdRng {
    StdRng::seed_from_u64(seed)
}

/// A number drawn uniformly from `0..hi` (`Rng::gen_range`).
///
/// Trusted: rand's `gen_range` returns a value inside the range and panics
/// only on an empty range, which `requires` rules out. Which value comes
/// back depends on the generator's state, so only the range is promised.
#[verifier::external_body]
pub(crate) fn random_below(rng: &mut StdRng, hi: usize) -> (r: usize)
    requires
        hi > 0,
    ensures
        r < hi,
{
    rng.gen_range(0..hi)
}

} // verus!
