//! Formation offsets: a centre slot, then rings of six-per-ring slots at
//! radii that grow by `FORMATION_SPACING` per ring.

use vstd::prelude::*;

use crate::fx::{dtz, div_tz, V2};
use crate::trig::{cos_turn, cos_turn_spec, sin_turn, sin_turn_spec};

verus! {

/// Distance between consecutive formation rings (fixed-point).
pub const FORMATION_SPACING: i64 = 60_000;

/// Most units one order can arrange; matches the world's unit capacity.
pub const FORMATION_CAP: usize = 100_000;

/// Index of the first slot of ring `r >= 1` (slot 0 is the centre; ring `r`
/// holds `6 r` slots).
pub open spec fn ring_start(r: int) -> int {
    1 + 3 * r * (r - 1)
}

/// The ring a slot index `k >= 1` falls in.
pub open spec fn ring_of(k: int) -> int {
    choose|r: int| 1 <= r && #[trigger] ring_start(r) <= k && k < ring_start(r + 1)
}

pub proof fn lemma_ring_start_monotone(a: int, b: int)
    by (nonlinear_arith)
    requires
        1 <= a <= b,
    ensures
        ring_start(a) <= ring_start(b),
{
}

/// `ring_of` is pinned down by the defining inequalities.
pub proof fn lemma_ring_of_is(k: int, r: int)
    requires
        1 <= r,
        ring_start(r) <= k,
        k < ring_start(r + 1),
    ensures
        ring_of(k) == r,
{
    assert(1 <= r && ring_start(r) <= k && k < ring_start(r + 1));
    let s = ring_of(k);
    assert(1 <= s && ring_start(s) <= k && k < ring_start(s + 1));
    if s < r {
        lemma_ring_start_monotone(s + 1, r);
        assert(false);
    }
    if r < s {
        lemma_ring_start_monotone(r + 1, s);
        assert(false);
    }
}

/// Angle of slot `idx` within a ring of `6 r` slots: the fraction `idx / 6r`
/// of a turn, in turn units.
pub open spec fn slot_angle_spec(r: int, idx: int) -> int {
    idx * 840 / r
}

/// The `k`-th formation offset: the centre for `k == 0`, then ring slots in
/// ring order, each at radius `FORMATION_SPACING * ring`.
pub open spec fn formation_offset_spec(k: int) -> V2 {
    if k == 0 {
        V2 { x: 0, y: 0 }
    } else {
        let r = ring_of(k);
        let idx = k - ring_start(r);
        let t = slot_angle_spec(r, idx);
        let radius = 60_000 * r;
        V2 {
            x: dtz(radius * cos_turn_spec(t), 1000) as i64,
            y: dtz(radius * sin_turn_spec(t), 1000) as i64,
        }
    }
}

/// The first offset is always the centre of the formation.
pub proof fn lemma_formation_first()
    ensures
        formation_offset_spec(0) == (V2 { x: 0, y: 0 }),
{
}

/// Ring radii are the strictly increasing multiples of the formation spacing.
pub proof fn lemma_formation_radii_increasing(r1: int, r2: int)
    requires
        1 <= r1 < r2,
    ensures
        60_000 * r1 == FORMATION_SPACING * r1,
        60_000 * r1 < 60_000 * r2,
{
}

/// Deterministic formation offsets for `count` units.
pub fn compute_formation_offsets(count: usize) -> (r: Vec<V2>)
    requires
        count <= FORMATION_CAP,
    ensures
        r@.len() == count,
        forall|k: int| 0 <= k < count ==> (#[trigger] r@[k]) == formation_offset_spec(k),
{
    let mut offsets: Vec<V2> = Vec::new();
    if count == 0 {
        return offsets;
    }
    offsets.push(V2 { x: 0, y: 0 });
    let mut ring: usize = 1;
    let mut start: usize = 1;
    while offsets.len() < count
        invariant
            count <= FORMATION_CAP,
            1 <= offsets@.len() <= count,
            1 <= ring,
            start == ring_start(ring as int),
            offsets@.len() == count || offsets@.len() == start,
            forall|k: int| 0 <= k < offsets@.len() ==> offsets@[k] == formation_offset_spec(k),
        decreases count - offsets.len(),
    {
        proof {
            assert(start < count);
            assert(ring <= 200) by (nonlinear_arith)
                requires
                    1 <= ring,
                    1 + 3 * (ring as int) * (ring as int - 1) < 100_001,
            ;
        }
        let slots: usize = 6 * ring;
        let mut idx: usize = 0;
        while idx < slots && offsets.len() < count
            invariant
                count <= FORMATION_CAP,
                1 <= ring <= 200,
                slots == 6 * ring,
                idx <= slots,
                start == ring_start(ring as int),
                offsets@.len() == start + idx,
                offsets@.len() <= count,
                forall|k: int| 0 <= k < offsets@.len() ==> offsets@[k] == formation_offset_spec(k),
            decreases slots - idx,
        {
            let t: u32 = ((idx as u32) * 840) / (ring as u32);
            proof {
                assert(0 <= (idx as int) * 840 / (ring as int) < 5040) by (nonlinear_arith)
                    requires
                        1 <= ring,
                        0 <= idx < 6 * (ring as int),
                ;
                assert(t == slot_angle_spec(ring as int, idx as int));
            }
            let c = cos_turn(t);
            let s = sin_turn(t);
            let radius: i64 = 60_000 * (ring as i64);
            proof {
                assert(-12_000_000_000 <= radius * c <= 12_000_000_000) by (nonlinear_arith)
                    requires
                        0 <= radius <= 12_000_000,
                        -1000 <= c <= 1000,
                ;
                assert(-12_000_000_000 <= radius * s <= 12_000_000_000) by (nonlinear_arith)
                    requires
                        0 <= radius <= 12_000_000,
                        -1000 <= s <= 1000,
                ;
            }
            let x = div_tz(radius * c, 1000);
            let y = div_tz(radius * s, 1000);
            let k = offsets.len();
            offsets.push(V2 { x, y });
            proof {
                assert(ring_start(ring as int + 1) == start + 6 * ring) by (nonlinear_arith)
                    requires
                        start == ring_start(ring as int),
                ;
                lemma_ring_of_is(k as int, ring as int);
                assert(offsets@[k as int] == formation_offset_spec(k as int));
            }
            idx = idx + 1;
        }
        proof {
            assert(ring_start(ring as int + 1) == start + 6 * ring) by (nonlinear_arith)
                requires
                    start == ring_start(ring as int),
            ;
        }
        start = start + slots;
        ring = ring + 1;
    }
    offsets
}

/// Some ring covers every slot index.
pub proof fn lemma_ring_exists(k: int)
    requires
        1 <= k,
    ensures
        exists|r: int| 1 <= r && #[trigger] ring_start(r) <= k && k < ring_start(r + 1),
    decreases k,
{
    if k == 1 {
        let one: int = 1;
        assert(ring_start(one) == 1 && ring_start(one + 1) == 7);
        assert(1 <= one && ring_start(one) <= k && k < ring_start(one + 1));
    } else {
        lemma_ring_exists(k - 1);
        let r = choose|r: int| 1 <= r && #[trigger] ring_start(r) <= k - 1 && k - 1 < ring_start(
            r + 1,
        );
        if k < ring_start(r + 1) {
            assert(ring_start(r) <= k && k < ring_start(r + 1));
        } else {
            assert(k == ring_start(r + 1));
            assert(ring_start(r + 2) == ring_start(r + 1) + 6 * (r + 1)) by (nonlinear_arith);
            assert(ring_start(r + 1) <= k && k < ring_start(r + 1 + 1));
            assert(1 <= r + 1);
        }
    }
}

/// Later slots never sit on an inner ring: the ring index, and with it the
/// ring radius, is non-decreasing in the slot index and grows by one ring at
/// each ring boundary.
pub proof fn lemma_ring_of_monotone(k1: int, k2: int)
    requires
        1 <= k1 <= k2,
    ensures
        1 <= ring_of(k1) <= ring_of(k2),
{
    lemma_ring_exists(k1);
    let r1 = choose|r: int| 1 <= r && #[trigger] ring_start(r) <= k1 && k1 < ring_start(r + 1);
    lemma_ring_of_is(k1, r1);
    lemma_ring_exists(k2);
    let r2 = choose|r: int| 1 <= r && #[trigger] ring_start(r) <= k2 && k2 < ring_start(r + 1);
    lemma_ring_of_is(k2, r2);
    if r2 < r1 {
        lemma_ring_start_monotone(r2 + 1, r1);
        assert(false);
    }
}

/// Offsets of bounded formations stay within a small box around the origin.
pub proof fn lemma_formation_offset_bound(k: int)
    requires
        0 <= k <= FORMATION_CAP,
    ensures
        crate::fx::in_box(formation_offset_spec(k), 12_000_000),
{
    if k >= 1 {
        lemma_ring_exists(k);
        let rw = choose|r: int| 1 <= r && #[trigger] ring_start(r) <= k && k < ring_start(r + 1);
        lemma_ring_of_is(k, rw);
        let r = ring_of(k);
        assert(r <= 200) by (nonlinear_arith)
            requires
                1 <= r,
                1 + 3 * r * (r - 1) <= 100_000,
        ;
        let idx = k - ring_start(r);
        assert(0 <= idx < 6 * r) by (nonlinear_arith)
            requires
                ring_start(r) <= k < ring_start(r + 1),
                idx == k - ring_start(r),
                1 <= r,
        ;
        let t = slot_angle_spec(r, idx);
        assert(0 <= t < 5040) by (nonlinear_arith)
            requires
                1 <= r,
                0 <= idx < 6 * r,
                t == idx * 840 / r,
        ;
        crate::trig::lemma_cos_turn_bounds(t);
        crate::trig::lemma_sin_turn_bounds(t);
        let radius = 60_000 * r;
        let c = cos_turn_spec(t);
        let sn = sin_turn_spec(t);
        assert(-12_000_000_000 <= radius * c <= 12_000_000_000) by (nonlinear_arith)
            requires
                0 <= radius <= 12_000_000,
                -1000 <= c <= 1000,
        ;
        assert(-12_000_000_000 <= radius * sn <= 12_000_000_000) by (nonlinear_arith)
            requires
                0 <= radius <= 12_000_000,
                -1000 <= sn <= 1000,
        ;
        assert(-12_000_000 <= dtz(radius * c, 1000) <= 12_000_000) by (nonlinear_arith)
            requires
                -12_000_000_000 <= radius * c <= 12_000_000_000,
        ;
        assert(-12_000_000 <= dtz(radius * sn, 1000) <= 12_000_000) by (nonlinear_arith)
            requires
                -12_000_000_000 <= radius * sn <= 12_000_000_000,
        ;
    }
}

} // verus!
