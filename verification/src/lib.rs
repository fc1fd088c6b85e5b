//! Deterministic real-time-strategy combat simulation core, together with the
//! guardrail configuration, analyzer and report model that ships beside it.
//!
//! All world coordinates, speeds and health values are fixed-point integers
//! scaled by 1000 (one unit of board space is 1000 ticks of the scale), and
//! all durations are integer milliseconds, so every computation is exact and
//! bit-identical across platforms.

use vstd::prelude::*;

pub mod analyzers;
pub mod board;
pub mod config;
pub mod combat;
pub mod formation;
pub mod fx;
pub mod graph;
pub mod pylons;
pub mod regression;
pub mod report;
pub mod rng;
pub mod selection;
pub mod strings;
pub mod trig;
pub mod units;
pub mod world;

verus! {

/// Basic health tracker to serve as an integration anchor.
pub struct Health {
    pub current: u32,
    pub max: u32,
}

impl Health {
    /// A fresh tracker starts at full health.
    pub fn new(max: u32) -> (r: Health)
        ensures
            r.current == max,
            r.max == max,
    {
        Health { current: max, max }
    }

    /// Damage saturates at zero; it never wraps below.
    pub fn damage(&mut self, amount: u32)
        ensures
            final(self).max == old(self).max,
            final(self).current == if amount <= old(self).current {
                (old(self).current - amount) as u32
            } else {
                0u32
            },
    {
        self.current = self.current.saturating_sub(amount);
    }

    pub fn current(&self) -> (r: u32)
        ensures
            r == self.current,
    {
        self.current
    }
}

} // verus!
