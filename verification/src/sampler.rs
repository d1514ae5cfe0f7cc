//! A deterministic pseudo-random sampler.
//!
//! Rendering draws jitter and scatter directions from this linear
//! congruential generator, so a render is a pure function of the scene and
//! the seed: contracts state every draw exactly, and a seeded render can be
//! reproduced bit for bit. The seed itself may come from the operating
//! system's entropy through `rand`, the one unverified call of the crate.

use vstd::prelude::*;

verus! {

/// Multiplier of the linear congruential step.
pub const LCG_MUL: u64 = 6364136223846793005;

/// Increment of the linear congruential step.
pub const LCG_INC: u64 = 1442695040888963407;

/// The generator state after one step.
pub open spec fn next_state(s: u64) -> u64 {
    (((s as int) * (LCG_MUL as int) + (LCG_INC as int)) % 0x1_0000_0000_0000_0000) as u64
}

/// The fixed-point value in [0, 1) drawn from one step out of state `s`:
/// the top 16 bits of the new state.
pub open spec fn rand_fp01(s: u64) -> i64 {
    (next_state(s) >> 48) as i64
}

/// A deterministic source of fixed-point samples in [0, 1).
pub struct Sampler {
    pub state: u64,
}

impl Sampler {
    pub fn new(seed: u64) -> (r: Sampler)
        ensures
            r.state == seed,
    {
        Sampler { state: seed }
    }

    /// Advances the generator and returns a fixed-point value in [0, 1).
    pub fn next_fp01(&mut self) -> (r: i64)
        ensures
            final(self).state == next_state(old(self).state),
            r == rand_fp01(old(self).state),
            0 <= r < 65536,
    {
        let t: u128 = (self.state as u128) * 6364136223846793005u128 + 1442695040888963407u128;
        self.state = (t % 0x1_0000_0000_0000_0000u128) as u64;
        let bits: u64 = self.state >> 48;
        proof {
            let st = self.state;
            assert(st >> 48 < 65536) by (bit_vector);
        }
        bits as i64
    }
}

/// Seeds a sampler from the operating system's entropy.
/// Relies on rand::random: nothing is promised of the value drawn.
#[verifier::external_body]
pub fn sampler_from_entropy() -> (r: Sampler)
{
    Sampler { state: rand::random::<u64>() }
}

} // verus!
