//! The deterministic random stream that drives every Metropolis trial.
//!
//! The generator is `rand_pcg`'s `Pcg64` (PCG XSL RR 128/64), seeded from a
//! single 64-bit seed. Its output is pure integer arithmetic on its own
//! state, so the whole stream is a function of the seed alone; that fact is
//! what makes simulation trajectories reproducible, and it is captured here
//! by the uninterpreted stream function `pcg64_stream`.

use vstd::prelude::*;

use rand::RngCore;
use rand::SeedableRng;

verus! {

#[verifier::external_type_specification]
#[verifier::external_body]
pub struct ExLcg128Xsl64(rand_pcg::Lcg128Xsl64);

/// The `k`-th 64-bit output drawn from a `rand_pcg::Pcg64` generator that
/// was created by `SeedableRng::seed_from_u64(seed)`. Both the seeding and
/// each output are deterministic, portable integer arithmetic, so this is a
/// well-defined function of `seed` and `k`.
pub uninterp spec fn pcg64_stream(seed: u64, k: nat) -> u64;

/// A seeded random stream together with bookkeeping of its seed and of how
/// many 64-bit values have been drawn so far.
pub struct SimRng {
    inner: rand_pcg::Pcg64,
    seed_val: u64,
    drawn_count: u128,
}

impl SimRng {
    /// The seed this stream was created from.
    pub closed spec fn seed(&self) -> u64 {
        self.seed_val
    }

    /// How many 64-bit values have been drawn so far.
    pub closed spec fn drawn(&self) -> nat {
        self.drawn_count as nat
    }

    /// Relies on `rand_pcg::Lcg128Xsl64`'s `SeedableRng::seed_from_u64`:
    /// seeding is a pure function of the 64-bit seed.
    #[verifier::external_body]
    pub fn new_seeded(seed: u64) -> (r: SimRng)
        ensures
            r.seed() == seed,
            r.drawn() == 0,
    {
        SimRng { inner: rand_pcg::Pcg64::seed_from_u64(seed), seed_val: seed, drawn_count: 0 }
    }

    /// Relies on `rand_pcg::Lcg128Xsl64`'s `RngCore::next_u64`: each output
    /// is a pure function of the generator state, hence of the seed and the
    /// number of values drawn before it.
    #[verifier::external_body]
    pub fn next_raw(&mut self) -> (r: u64)
        ensures
            final(self).seed() == old(self).seed(),
            final(self).drawn() == old(self).drawn() + 1,
            r == pcg64_stream(old(self).seed(), old(self).drawn()),
    {
        self.drawn_count += 1;
        self.inner.next_u64()
    }
}

/// The value of the `k`-th draw reduced to the range `[0, n)`.
pub open spec fn stream_below(seed: u64, k: nat, n: u64) -> u64 {
    pcg64_stream(seed, k) % n
}

/// The value of the `k`-th draw reduced to a Q.32 fraction in `[0, 2^32)`:
/// the acceptance variate `u` of a Metropolis trial, scaled so that the
/// integer `v` stands for the real number `(v + 1) / 2^32`, which lies in
/// `(0, 1]` and so never hits the excluded value 0.
pub open spec fn stream_frac(seed: u64, k: nat) -> u64 {
    pcg64_stream(seed, k) / 0x1_0000_0000
}

impl SimRng {
    /// Draw a value uniformly-by-remainder from `[0, n)`.
    pub fn next_below(&mut self, n: u64) -> (r: u64)
        requires
            n >= 1,
        ensures
            final(self).seed() == old(self).seed(),
            final(self).drawn() == old(self).drawn() + 1,
            r == stream_below(old(self).seed(), old(self).drawn(), n),
            r < n,
    {
        let raw = self.next_raw();
        raw % n
    }

    /// Draw the Q.32 acceptance fraction of a trial.
    pub fn next_frac(&mut self) -> (r: u64)
        ensures
            final(self).seed() == old(self).seed(),
            final(self).drawn() == old(self).drawn() + 1,
            r == stream_frac(old(self).seed(), old(self).drawn()),
            r < 0x1_0000_0000,
    {
        let raw = self.next_raw();
        raw / 0x1_0000_0000u64
    }
}

} // verus!
