//! Seeded deterministic random stream.
//!
//! The stream is a SplitMix64 generator: a fixed, well-specified recurrence
//! whose outputs are bit-identical for a given seed on every platform, which
//! the determinism contract of the simulation requires. The state advances by
//! a fixed odd constant and each output is a finalising mix of the new state,
//! so the whole draw history is a pure function of the seed.

use vstd::prelude::*;

use crate::fx::COORD_LIMIT;

verus! {

/// The SplitMix64 state increment.
pub const SM_GAMMA: u64 = 0x9E3779B97F4A7C15;

/// The two SplitMix64 mixing multipliers.
pub const SM_MIX1: u64 = 0xBF58476D1CE4E5B9;

pub const SM_MIX2: u64 = 0x94D049BB133111EB;

/// The state after one draw.
pub open spec fn sm_next_state(s: u64) -> u64 {
    s.wrapping_add(SM_GAMMA)
}

/// The SplitMix64 output mix of a state.
pub open spec fn sm_mix(z0: u64) -> u64 {
    let z1 = (z0 ^ (z0 >> 30)).wrapping_mul(SM_MIX1);
    let z2 = (z1 ^ (z1 >> 27)).wrapping_mul(SM_MIX2);
    z2 ^ (z2 >> 31)
}

/// The raw output of the draw made from state `s`.
pub open spec fn sm_output(s: u64) -> u64 {
    sm_mix(sm_next_state(s))
}

/// A bounded draw from state `s`: uniform over `lo..=hi` by modulus.
pub open spec fn sm_in_range(s: u64, lo: int, hi: int) -> int {
    lo + (sm_output(s) as int) % (hi - lo + 1)
}

/// The seeded stream every draw in the simulation comes from.
#[derive(Clone, Copy, Debug, PartialEq, Eq, Structural)]
pub struct SimulationRng {
    pub seed: u64,
    pub state: u64,
}

impl SimulationRng {
    /// A fresh stream; the first draw mixes `seed + SM_GAMMA`.
    pub fn new(seed: u64) -> (r: SimulationRng)
        ensures
            r.seed == seed,
            r.state == seed,
    {
        SimulationRng { seed, state: seed }
    }

    /// The seed the stream was built from.
    pub fn seed(&self) -> (r: u64)
        ensures
            r == self.seed,
    {
        self.seed
    }

    /// One raw draw.
    pub fn next_u64(&mut self) -> (r: u64)
        ensures
            final(self).seed == old(self).seed,
            final(self).state == sm_next_state(old(self).state),
            r == sm_output(old(self).state),
    {
        self.state = self.state.wrapping_add(SM_GAMMA);
        let z0 = self.state;
        let z1 = (z0 ^ (z0 >> 30)).wrapping_mul(SM_MIX1);
        let z2 = (z1 ^ (z1 >> 27)).wrapping_mul(SM_MIX2);
        z2 ^ (z2 >> 31)
    }

    /// A uniform draw from the inclusive range `lo..=hi`.
    pub fn gen_range(&mut self, lo: u32, hi: u32) -> (r: u32)
        requires
            lo <= hi,
        ensures
            final(self).seed == old(self).seed,
            final(self).state == sm_next_state(old(self).state),
            r == sm_in_range(old(self).state, lo as int, hi as int),
            lo <= r <= hi,
    {
        let raw = self.next_u64();
        let span: u64 = (hi - lo) as u64 + 1;
        let m: u64 = raw % span;
        lo + (m as u32)
    }

    /// A uniform fixed-point draw from the inclusive range `lo..=hi`.
    pub fn gen_fx(&mut self, lo: i64, hi: i64) -> (r: i64)
        requires
            lo <= hi,
            -COORD_LIMIT <= lo,
            hi <= COORD_LIMIT,
        ensures
            final(self).seed == old(self).seed,
            final(self).state == sm_next_state(old(self).state),
            r == sm_in_range(old(self).state, lo as int, hi as int),
            lo <= r <= hi,
    {
        let raw = self.next_u64();
        let span: u64 = ((hi - lo) as u64) + 1;
        let m: u64 = raw % span;
        lo + (m as i64)
    }
}

} // verus!
