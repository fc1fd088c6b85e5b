//! Helpers for deterministic regression tests.

use vstd::prelude::*;

use crate::rng::{sm_in_range, SimulationRng};

verus! {

/// Seed regression runs default to.
pub const DEFAULT_SEED: u64 = 42;

/// One die roll from a fresh seeded stream.
#[derive(Clone, Copy, Debug, PartialEq, Eq, Structural)]
pub struct CombatRoll {
    pub roll: u32,
    pub seed: u64,
}

/// Roll a twenty-sided die from a stream seeded with `seed`: the first
/// bounded draw of the stream, so the same seed always gives the same roll.
pub fn sample_combat_roll(seed: u64) -> (r: CombatRoll)
    ensures
        r.seed == seed,
        1 <= r.roll <= 20,
        r.roll == sm_in_range(seed, 1, 20),
{
    let mut rng = SimulationRng::new(seed);
    let roll = rng.gen_range(1, 20);
    CombatRoll { roll, seed }
}

} // verus!
