//! Randomness for the simulation: a seeded generator wrapped so that every
//! verified decision is a function of a plain integer draw.

use vstd::prelude::*;

verus! {

#[verifier::external_type_specification]
#[verifier::external_body]
pub struct ExStdRng(rand::rngs::StdRng);

/// The simulation's random number source. Two draws on equal state may give
/// any values within the stated bounds; nothing more is assumed of them.
pub struct SimRng {
    inner: rand::rngs::StdRng,
}

impl SimRng {
    /// Relies on rand's `StdRng::seed_from_u64` to build a generator from a
    /// word-sized seed.
    #[verifier::external_body]
    pub fn from_seed(seed: u64) -> (r: SimRng) {
        SimRng { inner: rand::SeedableRng::seed_from_u64(seed) }
    }

    /// Relies on rand's `Rng::gen_range` over `0..n`: the draw lies in the
    /// half-open range, and the call panics on an empty range, which the
    /// precondition rules out.
    #[verifier::external_body]
    pub(crate) fn below(&mut self, n: u64) -> (r: u64)
        requires
            n > 0,
        ensures
            r < n,
    {
        rand::Rng::gen_range(&mut self.inner, 0..n)
    }
}

} // verus!
