//! Integer trigonometry over turn units.
//!
//! Angles are measured in 1/5040 of a full turn (5040 is divisible by every
//! player count up to eight and by the slot counts of the first formation
//! rings, so the anchor and formation angles the simulation needs are exact).
//! Sine and cosine return fixed-point values in `[-1000, 1000]`, computed with
//! Bhaskara's rational approximation, which is exact at every quarter turn and
//! at the sixth-of-turn angles the tests exercise.

use vstd::prelude::*;

verus! {

/// Turn units in a full circle.
pub const TURN: u32 = 5040;

/// Turn units in half a circle.
pub const HALF_TURN: u32 = 2520;

/// Turn units in a quarter circle.
pub const QUARTER_TURN: u32 = 1260;

/// Bhaskara's sine approximation on `[0, HALF_TURN]`, scaled by 1000:
/// `16 u (H - u) / (5 H^2 - 4 u (H - u))` with `H = HALF_TURN`.
pub open spec fn bhaskara_spec(u: int) -> int {
    let s = u * (2520 - u);
    16 * s * 1000 / (31752000 - 4 * s)
}

/// Sine of an angle in turn units, for `0 <= t < TURN`, scaled by 1000.
pub open spec fn sin_turn_spec(t: int) -> int {
    if t <= 2520 {
        bhaskara_spec(t)
    } else {
        -bhaskara_spec(t - 2520)
    }
}

/// Cosine of an angle in turn units, for `0 <= t < TURN`, scaled by 1000.
pub open spec fn cos_turn_spec(t: int) -> int {
    sin_turn_spec((t + 1260) % 5040)
}

pub proof fn lemma_bhaskara_bounds(u: int)
    requires
        0 <= u <= 2520,
    ensures
        0 <= bhaskara_spec(u) <= 1000,
{
    let s = u * (2520 - u);
    assert(0 <= s && 4 * s <= 6350400) by (nonlinear_arith)
        requires
            0 <= u <= 2520,
            s == u * (2520 - u),
    ;
    let den = 31752000 - 4 * s;
    assert(den >= 25401600);
    assert(16 * s * 1000 >= 0);
    assert(16 * s * 1000 / den >= 0) by (nonlinear_arith)
        requires
            den >= 1,
            16 * s * 1000 >= 0,
    ;
    assert(16 * s * 1000 <= 1000 * den);
    assert(16 * s * 1000 / den <= 1000) by (nonlinear_arith)
        requires
            den >= 1,
            0 <= 16 * s * 1000 <= 1000 * den,
    ;
}

pub proof fn lemma_sin_turn_bounds(t: int)
    requires
        0 <= t < 5040,
    ensures
        -1000 <= sin_turn_spec(t) <= 1000,
{
    if t <= 2520 {
        lemma_bhaskara_bounds(t);
    } else {
        lemma_bhaskara_bounds(t - 2520);
    }
}

pub proof fn lemma_cos_turn_bounds(t: int)
    requires
        0 <= t < 5040,
    ensures
        -1000 <= cos_turn_spec(t) <= 1000,
{
    lemma_sin_turn_bounds((t + 1260) % 5040);
}

/// Executable Bhaskara sine on the first half turn.
fn bhaskara(u: u32) -> (r: i64)
    requires
        u <= 2520,
    ensures
        r == bhaskara_spec(u as int),
        0 <= r <= 1000,
{
    proof {
        assert((u as int) * (2520 - u as int) <= 2520 * 2520) by (nonlinear_arith)
            requires
                0 <= u as int <= 2520,
        ;
    }
    let s: u64 = (u as u64) * ((2520 - u) as u64);
    proof {
        lemma_bhaskara_bounds(u as int);
    }
    let num: u64 = 16 * s * 1000;
    let den: u64 = 31752000 - 4 * s;
    (num / den) as i64
}

/// Sine of `t` turn units, scaled by 1000.
pub fn sin_turn(t: u32) -> (r: i64)
    requires
        t < 5040,
    ensures
        r == sin_turn_spec(t as int),
        -1000 <= r <= 1000,
{
    if t <= 2520 {
        bhaskara(t)
    } else {
        -bhaskara(t - 2520)
    }
}

/// Cosine of `t` turn units, scaled by 1000.
pub fn cos_turn(t: u32) -> (r: i64)
    requires
        t < 5040,
    ensures
        r == cos_turn_spec(t as int),
        -1000 <= r <= 1000,
{
    let shifted = (t + 1260) % 5040;
    sin_turn(shifted)
}

} // verus!
