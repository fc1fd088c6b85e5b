//! Combat: nearest-enemy targeting, cooldown-gated damage, support heals,
//! death removal and the visual beams of one tick.
//!
//! The whole step reads a snapshot of positions and players (the unit store
//! as the step begins), queues its damage events, and applies them afterwards
//! in queued order, so no write of the step can influence a read of the same
//! step.

use vstd::prelude::*;

use crate::board::SpawnEntry;
use crate::fx::{dist_sq, dist_sq_spec, in_box, V2, COORD_LIMIT};
use crate::graph::{
    compute_connections, compute_supplied, compute_support_links, degree_spec,
    lemma_links_from_adjacent, links_spec, supplied_spec, adjacent_spec,
};
use crate::units::{unit_wf, units_wf, Unit, UNIT_CAP, LASER_COOLDOWN_MS};
use crate::board::MAX_STEP_MS;

verus! {

/// Lasers reach this far (fixed-point).
pub const LASER_RANGE: i64 = 260_000;

/// `LASER_RANGE` squared.
pub const LASER_RANGE_SQ: i64 = 67_600_000_000;

/// Base damage of one laser shot (fixed-point health).
pub const LASER_DAMAGE: i64 = 6_000;

/// Damage bonus per support connection, in thousandths.
pub const SUPPORT_DAMAGE_BONUS_MILLI: i64 = 50;

/// Heal per support connection per second (fixed-point health).
pub const SUPPORT_HEAL_PER_SECOND: i64 = 1_000;

/// Pylons boost supplied units within this range (fixed-point).
pub const PYLON_RADIUS: i64 = 180_000;

/// `PYLON_RADIUS` squared.
pub const PYLON_RADIUS_SQ: i64 = 32_400_000_000;

/// Damage bonus per boosted component member, in thousandths.
pub const PYLON_DAMAGE_BONUS_MILLI: i64 = 40;

/// How long a visual beam lives, milliseconds.
pub const BEAM_LIFETIME_MS: u64 = 150;

/// The display colours a beam can carry.
#[derive(Clone, Copy, Debug, PartialEq, Eq, Structural)]
pub enum BeamColor {
    /// A laser shot.
    Red,
    /// A support link of a component without pylon boost.
    Green,
    /// A support link of a pylon-boosted component.
    Cyan,
    /// A pylon-to-unit energy link.
    Blue,
}

/// A short-lived visual beam; the simulation never reads them back.
#[derive(Clone, Copy, Debug, PartialEq, Eq, Structural)]
pub struct Beam {
    pub start: V2,
    pub end: V2,
    pub color: BeamColor,
    /// Display thickness, fixed-point board units.
    pub thickness: i64,
    pub remaining_ms: u64,
}

pub open spec fn beam_wf(b: Beam) -> bool {
    &&& b.remaining_ms <= BEAM_LIFETIME_MS
    &&& b.thickness >= 1
}

pub open spec fn beams_wf(bs: Seq<Beam>) -> bool {
    forall|i: int| 0 <= i < bs.len() ==> beam_wf(#[trigger] bs[i])
}

/// One queued shot: indices into the tick snapshot and a damage amount.
#[derive(Clone, Copy, Debug, PartialEq, Eq, Structural)]
pub struct DamageEvent {
    pub shooter: usize,
    pub target: usize,
    pub amount: i64,
}

/// Position `pos` is within pylon range of some pylon.
pub open spec fn near_pylon_spec(pylons: Seq<V2>, pos: V2) -> bool {
    exists|k: int| 0 <= k < pylons.len() && #[trigger] dist_sq_spec(pos, pylons[k]) <= PYLON_RADIUS_SQ
}

/// How many units from index `j` onward belong to `p`, are supplied and stand
/// within pylon range of some pylon.
pub open spec fn boosted_count_from(
    us: Seq<Unit>,
    entries: Seq<SpawnEntry>,
    pylons: Seq<V2>,
    p: crate::board::PlayerId,
    j: int,
) -> int
    decreases us.len() - j,
{
    if j < 0 || j >= us.len() {
        0
    } else {
        boosted_count_from(us, entries, pylons, p, j + 1) + if us[j].player == p && supplied_spec(
            us,
            entries,
            j,
        ) && near_pylon_spec(pylons, us[j].pos) {
            1int
        } else {
            0int
        }
    }
}

/// The uniform pylon bonus of player `p`'s supplied component, thousandths.
pub open spec fn player_bonus_spec(
    us: Seq<Unit>,
    entries: Seq<SpawnEntry>,
    pylons: Seq<V2>,
    p: crate::board::PlayerId,
) -> int {
    PYLON_DAMAGE_BONUS_MILLI * boosted_count_from(us, entries, pylons, p, 0)
}

/// Player `p`'s supplied component is pylon-active.
pub open spec fn pylon_active_spec(
    us: Seq<Unit>,
    entries: Seq<SpawnEntry>,
    pylons: Seq<V2>,
    p: crate::board::PlayerId,
) -> bool {
    boosted_count_from(us, entries, pylons, p, 0) > 0
}

/// Fold of the first-wins nearest-enemy scan from index `j` with current
/// champion `best`.
pub open spec fn nearest_from(
    us: Seq<Unit>,
    p: crate::board::PlayerId,
    pos: V2,
    j: int,
    best: Option<int>,
) -> Option<int>
    decreases us.len() - j,
{
    if j < 0 || j >= us.len() {
        best
    } else {
        let better = us[j].player != p && (best is None || dist_sq_spec(us[j].pos, pos)
            < dist_sq_spec(us[best->Some_0].pos, pos));
        nearest_from(
            us,
            p,
            pos,
            j + 1,
            if better {
                Some(j)
            } else {
                best
            },
        )
    }
}

/// The nearest unit of another player, by squared distance from `pos`; ties
/// go to the earliest snapshot index.
pub open spec fn nearest_enemy_spec(us: Seq<Unit>, p: crate::board::PlayerId, pos: V2) -> Option<
    int,
> {
    nearest_from(us, p, pos, 0, None)
}

/// The scan only ever returns enemies, and only in range of the snapshot.
pub proof fn lemma_nearest_from_enemy(
    us: Seq<Unit>,
    p: crate::board::PlayerId,
    pos: V2,
    j: int,
    best: Option<int>,
)
    requires
        best is Some ==> 0 <= best->Some_0 < us.len() && us[best->Some_0].player != p,
    ensures
        nearest_from(us, p, pos, j, best) is Some ==> {
            let t = nearest_from(us, p, pos, j, best)->Some_0;
            0 <= t < us.len() && us[t].player != p
        },
        nearest_from(us, p, pos, j, best) is None ==> best is None,
    decreases us.len() - j,
{
    if !(j < 0 || j >= us.len()) {
        let better = us[j].player != p && (best is None || dist_sq_spec(us[j].pos, pos)
            < dist_sq_spec(us[best->Some_0].pos, pos));
        if better {
            lemma_nearest_from_enemy(us, p, pos, j + 1, Some(j));
        } else {
            lemma_nearest_from_enemy(us, p, pos, j + 1, best);
        }
    }
}

/// The damage multiplier of unit `i`, thousandths.
pub open spec fn damage_multiplier_spec(
    us: Seq<Unit>,
    entries: Seq<SpawnEntry>,
    pylons: Seq<V2>,
    i: int,
) -> int {
    1000 + if supplied_spec(us, entries, i) {
        SUPPORT_DAMAGE_BONUS_MILLI * degree_spec(us, i) + player_bonus_spec(
            us,
            entries,
            pylons,
            us[i].player,
        )
    } else {
        0int
    }
}

/// The damage of one shot by unit `i` (fixed-point health).
pub open spec fn damage_amount_spec(
    us: Seq<Unit>,
    entries: Seq<SpawnEntry>,
    pylons: Seq<V2>,
    i: int,
) -> int {
    LASER_DAMAGE * damage_multiplier_spec(us, entries, pylons, i) / 1000
}

/// Unit `i` fires this tick: its cooldown elapses and its nearest enemy is in
/// laser range.
pub open spec fn fires_spec(
    us: Seq<Unit>,
    entries: Seq<SpawnEntry>,
    pylons: Seq<V2>,
    i: int,
    dt: int,
) -> bool {
    let t = nearest_enemy_spec(us, us[i].player, us[i].pos);
    &&& t is Some
    &&& dist_sq_spec(us[i].pos, us[t->Some_0].pos) <= LASER_RANGE_SQ
    &&& us[i].attack_elapsed_ms + dt >= LASER_COOLDOWN_MS
}

/// Unit `i` after the read pass of a tick of `dt` milliseconds: cooldown
/// advanced (wrapping, or reset on fire) and support heal applied.
pub open spec fn pass_unit_spec(
    us: Seq<Unit>,
    entries: Seq<SpawnEntry>,
    pylons: Seq<V2>,
    i: int,
    dt: int,
) -> Unit {
    let u = us[i];
    let e = u.attack_elapsed_ms + dt;
    let conn = degree_spec(us, i);
    let healed = if supplied_spec(us, entries, i) && conn > 0 && u.health < u.max_health {
        let h = u.health + conn * dt;
        if h > u.max_health {
            u.max_health as int
        } else {
            h
        }
    } else {
        u.health as int
    };
    let e2: int = if fires_spec(us, entries, pylons, i, dt) {
        0
    } else if e >= LASER_COOLDOWN_MS {
        e % (LASER_COOLDOWN_MS as int)
    } else {
        e
    };
    Unit { health: healed as i64, attack_elapsed_ms: e2 as u64, ..u }
}

pub open spec fn pass_units_spec(
    us: Seq<Unit>,
    entries: Seq<SpawnEntry>,
    pylons: Seq<V2>,
    dt: int,
) -> Seq<Unit> {
    Seq::new(us.len(), |i: int| pass_unit_spec(us, entries, pylons, i, dt))
}

/// The damage events queued by units from index `i` onward, in unit order.
pub open spec fn events_from(
    us: Seq<Unit>,
    entries: Seq<SpawnEntry>,
    pylons: Seq<V2>,
    dt: int,
    i: int,
) -> Seq<DamageEvent>
    decreases us.len() - i,
{
    if i < 0 || i >= us.len() {
        Seq::empty()
    } else {
        let rest = events_from(us, entries, pylons, dt, i + 1);
        if fires_spec(us, entries, pylons, i, dt) {
            seq![
                DamageEvent {
                    shooter: i as usize,
                    target: nearest_enemy_spec(us, us[i].player, us[i].pos)->Some_0 as usize,
                    amount: damage_amount_spec(us, entries, pylons, i) as i64,
                },
            ] + rest
        } else {
            rest
        }
    }
}

pub open spec fn combat_events_spec(
    us: Seq<Unit>,
    entries: Seq<SpawnEntry>,
    pylons: Seq<V2>,
    dt: int,
) -> Seq<DamageEvent> {
    events_from(us, entries, pylons, dt, 0)
}

/// Apply one damage event: the target's health drops, saturating at zero.
pub open spec fn apply_one_spec(us: Seq<Unit>, ev: DamageEvent) -> Seq<Unit> {
    if 0 <= ev.target < us.len() {
        let u = us[ev.target as int];
        let h: int = if ev.amount >= u.health {
            0
        } else {
            u.health - ev.amount
        };
        us.update(ev.target as int, Unit { health: h as i64, ..u })
    } else {
        us
    }
}

/// Apply queued events in order.
pub open spec fn apply_events_spec(us: Seq<Unit>, evs: Seq<DamageEvent>) -> Seq<Unit>
    decreases evs.len(),
{
    if evs.len() == 0 {
        us
    } else {
        apply_events_spec(apply_one_spec(us, evs[0]), evs.subrange(1, evs.len() as int))
    }
}

/// The units that survive the tick: those with health left.
pub open spec fn survivors_spec(us: Seq<Unit>) -> Seq<Unit>
    decreases us.len(),
{
    if us.len() == 0 {
        Seq::empty()
    } else {
        survivors_spec(us.drop_last()) + if us.last().health > 0 {
            seq![us.last()]
        } else {
            Seq::empty()
        }
    }
}

/// The unit store after the whole combat step.
pub open spec fn combat_units_spec(
    us: Seq<Unit>,
    entries: Seq<SpawnEntry>,
    pylons: Seq<V2>,
    dt: int,
) -> Seq<Unit> {
    survivors_spec(
        apply_events_spec(
            pass_units_spec(us, entries, pylons, dt),
            combat_events_spec(us, entries, pylons, dt),
        ),
    )
}

/// The support-link beam of link `l`: green, or cyan when an endpoint sits in
/// a pylon-active component.
pub open spec fn link_beam_spec(
    us: Seq<Unit>,
    entries: Seq<SpawnEntry>,
    pylons: Seq<V2>,
    l: (usize, usize),
) -> Beam {
    let a = l.0 as int;
    let b = l.1 as int;
    let active = (supplied_spec(us, entries, a) && pylon_active_spec(
        us,
        entries,
        pylons,
        us[a].player,
    )) || (supplied_spec(us, entries, b) && pylon_active_spec(us, entries, pylons, us[b].player));
    Beam {
        start: us[a].pos,
        end: us[b].pos,
        color: if active {
            BeamColor::Cyan
        } else {
            BeamColor::Green
        },
        thickness: 2_600,
        remaining_ms: BEAM_LIFETIME_MS,
    }
}

pub open spec fn link_beams_spec(
    us: Seq<Unit>,
    entries: Seq<SpawnEntry>,
    pylons: Seq<V2>,
) -> Seq<Beam> {
    Seq::new(links_spec(us).len(), |k: int| link_beam_spec(us, entries, pylons, links_spec(us)[k]))
}

/// The red shot beams, one per damage event, in event order.
pub open spec fn damage_beams_spec(
    us: Seq<Unit>,
    entries: Seq<SpawnEntry>,
    pylons: Seq<V2>,
    dt: int,
) -> Seq<Beam> {
    let evs = combat_events_spec(us, entries, pylons, dt);
    Seq::new(
        evs.len(),
        |k: int|
            Beam {
                start: us[evs[k].shooter as int].pos,
                end: us[evs[k].target as int].pos,
                color: BeamColor::Red,
                thickness: 4_000,
                remaining_ms: BEAM_LIFETIME_MS,
            },
    )
}

/// The blue energy links of pylon `k` to boosted units from index `i` onward.
pub open spec fn pylon_beams_row(
    us: Seq<Unit>,
    entries: Seq<SpawnEntry>,
    pylons: Seq<V2>,
    k: int,
    i: int,
) -> Seq<Beam>
    decreases us.len() - i,
{
    if i < 0 || i >= us.len() {
        Seq::empty()
    } else {
        let rest = pylon_beams_row(us, entries, pylons, k, i + 1);
        if supplied_spec(us, entries, i) && pylon_active_spec(us, entries, pylons, us[i].player)
            && dist_sq_spec(us[i].pos, pylons[k]) <= PYLON_RADIUS_SQ {
            seq![
                Beam {
                    start: pylons[k],
                    end: us[i].pos,
                    color: BeamColor::Blue,
                    thickness: 2_600,
                    remaining_ms: BEAM_LIFETIME_MS,
                },
            ] + rest
        } else {
            rest
        }
    }
}

pub open spec fn pylon_beams_from(
    us: Seq<Unit>,
    entries: Seq<SpawnEntry>,
    pylons: Seq<V2>,
    k: int,
) -> Seq<Beam>
    decreases pylons.len() - k,
{
    if k < 0 || k >= pylons.len() {
        Seq::empty()
    } else {
        pylon_beams_row(us, entries, pylons, k, 0) + pylon_beams_from(us, entries, pylons, k + 1)
    }
}

/// Every beam the combat step emits, in emission order: support links, then
/// shots, then pylon energy links.
pub open spec fn combat_beams_spec(
    us: Seq<Unit>,
    entries: Seq<SpawnEntry>,
    pylons: Seq<V2>,
    dt: int,
) -> Seq<Beam> {
    link_beams_spec(us, entries, pylons) + damage_beams_spec(us, entries, pylons, dt)
        + pylon_beams_from(us, entries, pylons, 0)
}

pub proof fn lemma_boosted_count_bounds(
    us: Seq<Unit>,
    entries: Seq<SpawnEntry>,
    pylons: Seq<V2>,
    p: crate::board::PlayerId,
    j: int,
)
    requires
        0 <= j <= us.len(),
    ensures
        0 <= boosted_count_from(us, entries, pylons, p, j) <= us.len() - j,
    decreases us.len() - j,
{
    if j < us.len() {
        lemma_boosted_count_bounds(us, entries, pylons, p, j + 1);
    }
}

/// Shot damage is positive and bounded while the store respects its capacity.
pub proof fn lemma_damage_bounds(
    us: Seq<Unit>,
    entries: Seq<SpawnEntry>,
    pylons: Seq<V2>,
    i: int,
)
    requires
        us.len() <= UNIT_CAP,
        0 <= i < us.len(),
    ensures
        1000 <= damage_multiplier_spec(us, entries, pylons, i) <= 10_000_000,
        6_000 <= damage_amount_spec(us, entries, pylons, i) <= 60_000_000,
{
    crate::graph::lemma_degree_from_bounds(us, i, 0);
    lemma_boosted_count_bounds(us, entries, pylons, us[i].player, 0);
    let m = damage_multiplier_spec(us, entries, pylons, i);
    assert(1000 <= m <= 10_000_000);
    assert(6_000 * 1000 <= LASER_DAMAGE * m <= 6_000 * 10_000_000) by (nonlinear_arith)
        requires
            1000 <= m <= 10_000_000,
    ;
    assert(6_000 <= LASER_DAMAGE * m / 1000 <= 60_000_000) by (nonlinear_arith)
        requires
            6_000_000 <= LASER_DAMAGE * m <= 60_000_000_000,
    ;
}

/// Every queued event names a valid shooter and target of different players,
/// with positive damage: no friendly fire.
pub proof fn lemma_events_from_ok(
    us: Seq<Unit>,
    entries: Seq<SpawnEntry>,
    pylons: Seq<V2>,
    dt: int,
    i: int,
    k: int,
)
    requires
        us.len() <= UNIT_CAP,
        0 <= k < events_from(us, entries, pylons, dt, i).len(),
    ensures
        ({
            let ev = events_from(us, entries, pylons, dt, i)[k];
            &&& 0 <= ev.shooter < us.len()
            &&& 0 <= ev.target < us.len()
            &&& us[ev.target as int].player != us[ev.shooter as int].player
            &&& 0 < ev.amount <= 60_000_000
        }),
    decreases us.len() - i,
{
    if !(i < 0 || i >= us.len()) {
        if fires_spec(us, entries, pylons, i, dt) {
            if k == 0 {
                lemma_nearest_from_enemy(us, us[i].player, us[i].pos, 0, None);
                lemma_damage_bounds(us, entries, pylons, i);
            } else {
                lemma_events_from_ok(us, entries, pylons, dt, i + 1, k - 1);
            }
        } else {
            lemma_events_from_ok(us, entries, pylons, dt, i + 1, k);
        }
    }
}

/// No friendly fire: every damage event of a tick targets a unit of another
/// player than its shooter, and carries positive damage.
pub proof fn lemma_no_friendly_fire(
    us: Seq<Unit>,
    entries: Seq<SpawnEntry>,
    pylons: Seq<V2>,
    dt: int,
    k: int,
)
    requires
        us.len() <= UNIT_CAP,
        0 <= k < combat_events_spec(us, entries, pylons, dt).len(),
    ensures
        ({
            let ev = combat_events_spec(us, entries, pylons, dt)[k];
            &&& 0 <= ev.shooter < us.len()
            &&& 0 <= ev.target < us.len()
            &&& us[ev.target as int].player != us[ev.shooter as int].player
            &&& ev.amount > 0
        }),
{
    lemma_events_from_ok(us, entries, pylons, dt, 0, k);
}

/// Applying events changes health alone, never below zero nor upward.
pub proof fn lemma_apply_events_frame(us: Seq<Unit>, evs: Seq<DamageEvent>)
    requires
        forall|i: int| 0 <= i < us.len() ==> (#[trigger] us[i].health) >= 0,
        forall|k: int| 0 <= k < evs.len() ==> (#[trigger] evs[k].amount) >= 0,
    ensures
        apply_events_spec(us, evs).len() == us.len(),
        forall|i: int|
            0 <= i < us.len() ==> (#[trigger] apply_events_spec(us, evs)[i]) == (Unit {
                health: apply_events_spec(us, evs)[i].health,
                ..us[i]
            }),
        forall|i: int|
            0 <= i < us.len() ==> 0 <= (#[trigger] apply_events_spec(us, evs)[i]).health
                <= us[i].health,
    decreases evs.len(),
{
    if evs.len() > 0 {
        let us1 = apply_one_spec(us, evs[0]);
        assert forall|i: int| 0 <= i < us1.len() implies (#[trigger] us1[i].health) >= 0 by {
            assert(evs[0].amount >= 0);
        }
        let tail = evs.subrange(1, evs.len() as int);
        assert forall|k: int| 0 <= k < tail.len() implies (#[trigger] tail[k].amount) >= 0 by {
            assert(tail[k] == evs[k + 1]);
        }
        lemma_apply_events_frame(us1, tail);
    }
}

/// Survivors are drawn from the store in order: each survivor is one of the
/// original units, has health left, and distinct identities stay distinct.
pub proof fn lemma_survivors_ok(us: Seq<Unit>)
    requires
        forall|i: int, j: int|
            0 <= i < j < us.len() ==> #[trigger] us[i].id != #[trigger] us[j].id,
    ensures
        survivors_spec(us).len() <= us.len(),
        forall|k: int|
            0 <= k < survivors_spec(us).len() ==> exists|j: int|
                0 <= j < us.len() && #[trigger] survivors_spec(us)[k] == us[j],
        forall|k: int| 0 <= k < survivors_spec(us).len() ==> (#[trigger] survivors_spec(us)[k]).health > 0,
        forall|i: int, j: int|
            0 <= i < j < survivors_spec(us).len() ==> #[trigger] survivors_spec(us)[i].id
                != #[trigger] survivors_spec(us)[j].id,
    decreases us.len(),
{
    if us.len() > 0 {
        let pre = us.drop_last();
        lemma_survivors_ok(pre);
        let sv = survivors_spec(us);
        let svp = survivors_spec(pre);
        assert forall|k: int| 0 <= k < sv.len() implies exists|j: int|
            0 <= j < us.len() && #[trigger] sv[k] == us[j] by {
            if k < svp.len() {
                let j2 = choose|j2: int| 0 <= j2 < pre.len() && svp[k] == pre[j2];
                assert(us[j2] == pre[j2]);
                assert(sv[k] == us[j2]);
            } else {
                assert(sv[k] == us.last());
                assert(sv[k] == us[us.len() - 1]);
            }
        }
        assert forall|i: int, j: int| 0 <= i < j < sv.len() implies #[trigger] sv[i].id
            != #[trigger] sv[j].id by {
            if j < svp.len() {
            } else {
                assert(sv[j] == us.last());
                let ji = choose|ji: int| 0 <= ji < pre.len() && svp[i] == pre[ji];
                assert(us[ji].id != us[us.len() - 1].id);
            }
        }
    }
}


/// Is `pos` within pylon range of some pylon?
pub fn near_pylon(pylons: &Vec<V2>, pos: V2) -> (r: bool)
    requires
        forall|k: int| 0 <= k < pylons@.len() ==> in_box(#[trigger] pylons@[k], COORD_LIMIT as int),
        in_box(pos, COORD_LIMIT as int),
    ensures
        r == near_pylon_spec(pylons@, pos),
{
    let m = pylons.len();
    let mut k: usize = 0;
    while k < m
        invariant
            0 <= k <= m,
            m == pylons@.len(),
            forall|k2: int| 0 <= k2 < pylons@.len() ==> in_box(#[trigger] pylons@[k2], COORD_LIMIT as int),
            in_box(pos, COORD_LIMIT as int),
            forall|k2: int| 0 <= k2 < k ==> #[trigger] dist_sq_spec(pos, pylons@[k2]) > PYLON_RADIUS_SQ,
        decreases m - k,
    {
        let d = dist_sq(pos, pylons[k]);
        if d <= PYLON_RADIUS_SQ {
            return true;
        }
        k = k + 1;
    }
    false
}

/// Per-player boosted-member counts of the supplied components.
fn boosted_counts(
    units: &Vec<Unit>,
    entries: &Vec<SpawnEntry>,
    pylons: &Vec<V2>,
    sup: &Vec<bool>,
) -> (r: Vec<usize>)
    requires
        units_wf(units@),
        forall|k: int| 0 <= k < pylons@.len() ==> in_box(#[trigger] pylons@[k], COORD_LIMIT as int),
        sup@.len() == units@.len(),
        forall|i: int|
            0 <= i < units@.len() ==> (sup@[i] <==> supplied_spec(units@, entries@, i)),
    ensures
        r@.len() == crate::board::MAX_PLAYERS,
        forall|p: int|
            0 <= p < crate::board::MAX_PLAYERS ==> r@[p] == boosted_count_from(
                units@,
                entries@,
                pylons@,
                crate::board::PlayerId(p as usize),
                0,
            ),
{
    let n = units.len();
    let mut out: Vec<usize> = Vec::new();
    let mut p: usize = 0;
    while p < crate::board::MAX_PLAYERS
        invariant
            0 <= p <= crate::board::MAX_PLAYERS,
            n == units@.len(),
            units_wf(units@),
            forall|k: int| 0 <= k < pylons@.len() ==> in_box(#[trigger] pylons@[k], COORD_LIMIT as int),
            sup@.len() == units@.len(),
            forall|i: int|
                0 <= i < units@.len() ==> (sup@[i] <==> supplied_spec(units@, entries@, i)),
            out@.len() == p,
            forall|p2: int|
                0 <= p2 < p ==> out@[p2] == boosted_count_from(
                    units@,
                    entries@,
                    pylons@,
                    crate::board::PlayerId(p2 as usize),
                    0,
                ),
        decreases crate::board::MAX_PLAYERS - p,
    {
        let ghost pid = crate::board::PlayerId(p as usize);
        let mut c: usize = 0;
        let mut j: usize = n;
        while j > 0
            invariant
                0 <= j <= n,
                n == units@.len(),
                units_wf(units@),
                forall|k: int| 0 <= k < pylons@.len() ==> in_box(#[trigger] pylons@[k], COORD_LIMIT as int),
                sup@.len() == units@.len(),
                forall|i: int|
                    0 <= i < units@.len() ==> (sup@[i] <==> supplied_spec(units@, entries@, i)),
                pid == crate::board::PlayerId(p as usize),
                c == boosted_count_from(units@, entries@, pylons@, pid, j as int),
                0 <= c <= n - j,
            decreases j,
        {
            j = j - 1;
            proof {
                lemma_boosted_count_bounds(units@, entries@, pylons@, pid, j as int + 1);
                assert(crate::graph::unit_wf_at(units@, j as int));
            }
            if units[j].player.0 == p && sup[j] {
                if near_pylon(pylons, units[j].pos) {
                    c = c + 1;
                } else {
                }
            }
        }
        out.push(c);
        p = p + 1;
    }
    out
}

/// The nearest enemy of unit `i` in the snapshot, earliest index on ties.
fn nearest_enemy(units: &Vec<Unit>, i: usize) -> (r: Option<usize>)
    requires
        units_wf(units@),
        i < units@.len(),
    ensures
        ({
            let spec = nearest_enemy_spec(units@, units@[i as int].player, units@[i as int].pos);
            match r {
                None => spec is None,
                Some(t) => t < units@.len() && spec == Some(t as int),
            }
        }),
{
    let n = units.len();
    let p = units[i].player;
    let pos = units[i].pos;
    let mut best: Option<usize> = None;
    let mut j: usize = 0;
    while j < n
        invariant
            0 <= j <= n,
            n == units@.len(),
            units_wf(units@),
            i < n,
            p == units@[i as int].player,
            pos == units@[i as int].pos,
            match best {
                None => nearest_from(units@, p, pos, j as int, None) == nearest_enemy_spec(
                    units@,
                    p,
                    pos,
                ),
                Some(b) => b < n && nearest_from(units@, p, pos, j as int, Some(b as int))
                    == nearest_enemy_spec(units@, p, pos),
            },
        decreases n - j,
    {
        proof {
            assert(crate::graph::unit_wf_at(units@, i as int));
            assert(crate::graph::unit_wf_at(units@, j as int));
            if best is Some {
                assert(crate::graph::unit_wf_at(units@, best->Some_0 as int));
            }
        }
        let better: bool = if units[j].player.0 != p.0 {
            match best {
                None => true,
                Some(b) => {
                    let dj = dist_sq(units[j].pos, pos);
                    let db = dist_sq(units[b].pos, pos);
                    dj < db
                },
            }
        } else {
            false
        };
        if better {
            best = Some(j);
        }
        j = j + 1;
    }
    best
}

/// The whole combat step of one tick: advance cooldowns, heal supplied
/// units, queue and apply shots, remove the dead, and emit this tick's
/// support, shot and pylon beams in order.
#[verifier::rlimit(100)]
pub fn unit_combat_system(
    units: &mut Vec<Unit>,
    entries: &Vec<SpawnEntry>,
    pylons: &Vec<V2>,
    beams: &mut Vec<Beam>,
    dt_ms: u64,
)
    requires
        units_wf(old(units)@),
        forall|e: int|
            0 <= e < entries@.len() ==> in_box(#[trigger] entries@[e].position, COORD_LIMIT as int),
        forall|k: int| 0 <= k < pylons@.len() ==> in_box(#[trigger] pylons@[k], COORD_LIMIT as int),
        1 <= dt_ms <= MAX_STEP_MS,
        beams_wf(old(beams)@),
    ensures
        final(units)@ == combat_units_spec(old(units)@, entries@, pylons@, dt_ms as int),
        units_wf(final(units)@),
        forall|k: int|
            0 <= k < final(units)@.len() ==> exists|j: int|
                0 <= j < old(units)@.len() && (#[trigger] final(units)@[k].id) == old(
                    units,
                )@[j].id,
        final(beams)@ == old(beams)@ + combat_beams_spec(
            old(units)@,
            entries@,
            pylons@,
            dt_ms as int,
        ),
        beams_wf(final(beams)@),
{
    let ghost us0 = old(units)@;
    let ghost dt = dt_ms as int;
    let n = units.len();
    let sup = compute_supplied(units, entries);
    let conns = compute_connections(units);
    let links = compute_support_links(units);
    let counts = boosted_counts(units, entries, pylons, &sup);
    let ghost total_beams = combat_beams_spec(us0, entries@, pylons@, dt);

    // Emit the support-link beams from the pristine snapshot.
    let mut new_beams: Vec<Beam> = Vec::new();
    let nl = links.len();
    let mut k: usize = 0;
    while k < nl
        invariant
            0 <= k <= nl,
            units@ == us0,
            units_wf(us0),
            n == us0.len(),
            nl == links@.len(),
            links@ == links_spec(us0),
            sup@.len() == n,
            forall|i: int| 0 <= i < n ==> (sup@[i] <==> supplied_spec(us0, entries@, i)),
            counts@.len() == crate::board::MAX_PLAYERS,
            forall|p: int|
                0 <= p < crate::board::MAX_PLAYERS ==> counts@[p] == boosted_count_from(
                    us0,
                    entries@,
                    pylons@,
                    crate::board::PlayerId(p as usize),
                    0,
                ),
            new_beams@.len() == k,
            forall|k2: int|
                0 <= k2 < k ==> new_beams@[k2] == link_beam_spec(
                    us0,
                    entries@,
                    pylons@,
                    links@[k2],
                ),
        decreases nl - k,
    {
        let l = links[k];
        proof {
            lemma_links_from_adjacent(us0, 0, k as int);
            assert(adjacent_spec(us0, l.0 as int, l.1 as int));
            assert(crate::graph::unit_wf_at(us0, l.0 as int));
            assert(crate::graph::unit_wf_at(us0, l.1 as int));
        }
        let a = l.0;
        let b = l.1;
        let pa = units[a].player.0;
        let pb = units[b].player.0;
        let active = (sup[a] && counts[pa] > 0) || (sup[b] && counts[pb] > 0);
        let beam = Beam {
            start: units[a].pos,
            end: units[b].pos,
            color: if active {
                BeamColor::Cyan
            } else {
                BeamColor::Green
            },
            thickness: 2_600,
            remaining_ms: BEAM_LIFETIME_MS,
        };
        proof {
            assert(beam == link_beam_spec(us0, entries@, pylons@, links@[k as int]));
        }
        new_beams.push(beam);
        k = k + 1;
    }
    proof {
        assert(new_beams@ =~= link_beams_spec(us0, entries@, pylons@));
    }
    let ghost lb = link_beams_spec(us0, entries@, pylons@);

    // Read pass: targeting and damage events over the pristine snapshot.
    let mut fired: Vec<bool> = Vec::new();
    let mut events: Vec<DamageEvent> = Vec::new();
    let mut i: usize = 0;
    while i < n
        invariant
            0 <= i <= n,
            units@ == us0,
            units_wf(us0),
            n == us0.len(),
            sup@.len() == n,
            forall|i2: int| 0 <= i2 < n ==> (sup@[i2] <==> supplied_spec(us0, entries@, i2)),
            conns@.len() == n,
            forall|i2: int| 0 <= i2 < n ==> conns@[i2] == degree_spec(us0, i2),
            counts@.len() == crate::board::MAX_PLAYERS,
            forall|p: int|
                0 <= p < crate::board::MAX_PLAYERS ==> counts@[p] == boosted_count_from(
                    us0,
                    entries@,
                    pylons@,
                    crate::board::PlayerId(p as usize),
                    0,
                ),
            1 <= dt_ms <= MAX_STEP_MS,
            dt == dt_ms,
            fired@.len() == i,
            forall|k2: int|
                0 <= k2 < i ==> fired@[k2] == fires_spec(us0, entries@, pylons@, k2, dt),
            events@ + events_from(us0, entries@, pylons@, dt, i as int) == combat_events_spec(
                us0,
                entries@,
                pylons@,
                dt,
            ),
            forall|k2: int|
                0 <= k2 < events@.len() ==> (#[trigger] events@[k2]).target < n
                    && events@[k2].shooter < n && 0 <= events@[k2].amount <= 60_000_000,
            new_beams@.len() == lb.len() + events@.len(),
            forall|k2: int| 0 <= k2 < lb.len() ==> new_beams@[k2] == lb[k2],
            forall|k2: int|
                0 <= k2 < events@.len() ==> new_beams@[lb.len() + k2] == (Beam {
                    start: us0[events@[k2].shooter as int].pos,
                    end: us0[events@[k2].target as int].pos,
                    color: BeamColor::Red,
                    thickness: 4_000,
                    remaining_ms: BEAM_LIFETIME_MS,
                }),
        decreases n - i,
    {
        proof {
            assert(crate::graph::unit_wf_at(us0, i as int));
        }
        let t = nearest_enemy(units, i);
        let fires: bool = match t {
            Some(ti) => {
                proof {
                    assert(crate::graph::unit_wf_at(us0, ti as int));
                }
                let d = dist_sq(units[i].pos, units[ti].pos);
                d <= LASER_RANGE_SQ && units[i].attack_elapsed_ms + dt_ms >= LASER_COOLDOWN_MS
            },
            None => false,
        };
        proof {
            assert(fires == fires_spec(us0, entries@, pylons@, i as int, dt));
        }
        fired.push(fires);
        if fires {
            let ti = match t {
                Some(v) => v,
                None => 0,
            };
            let conn = conns[i];
            proof {
                crate::graph::lemma_degree_from_bounds(us0, i as int, 0);
                lemma_boosted_count_bounds(
                    us0,
                    entries@,
                    pylons@,
                    us0[i as int].player,
                    0,
                );
            }
            let p = units[i].player.0;
            let bonus: i64 = 40 * (counts[p] as i64);
            let mult: i64 = if sup[i] {
                1000 + 50 * (conn as i64) + bonus
            } else {
                1000
            };
            proof {
                assert(mult == damage_multiplier_spec(us0, entries@, pylons@, i as int));
                lemma_damage_bounds(us0, entries@, pylons@, i as int);
            }
            let dmg = crate::fx::div_tz(6_000 * mult, 1000);
            proof {
                assert(dmg == damage_amount_spec(us0, entries@, pylons@, i as int));
            }
            let ev = DamageEvent { shooter: i, target: ti, amount: dmg };
            let ghost pre_events = events@;
            events.push(ev);
            new_beams.push(
                Beam {
                    start: units[i].pos,
                    end: units[ti].pos,
                    color: BeamColor::Red,
                    thickness: 4_000,
                    remaining_ms: BEAM_LIFETIME_MS,
                },
            );
            proof {
                assert(events_from(us0, entries@, pylons@, dt, i as int) == seq![ev]
                    + events_from(us0, entries@, pylons@, dt, i as int + 1));
                assert(events@ + events_from(us0, entries@, pylons@, dt, i as int + 1)
                    =~= combat_events_spec(us0, entries@, pylons@, dt));
            }
        } else {
            proof {
                assert(events_from(us0, entries@, pylons@, dt, i as int) == events_from(
                    us0,
                    entries@,
                    pylons@,
                    dt,
                    i as int + 1,
                ));
            }
        }
        i = i + 1;
    }
    proof {
        assert(events@ =~= combat_events_spec(us0, entries@, pylons@, dt));
        assert(new_beams@ =~= lb + damage_beams_spec(us0, entries@, pylons@, dt));
    }
    let ghost ldb = lb + damage_beams_spec(us0, entries@, pylons@, dt);

    // Pylon energy links, still over the pristine snapshot.
    let np = pylons.len();
    let mut pk: usize = 0;
    while pk < np
        invariant
            0 <= pk <= np,
            units@ == us0,
            units_wf(us0),
            n == us0.len(),
            np == pylons@.len(),
            forall|k2: int| 0 <= k2 < pylons@.len() ==> in_box(#[trigger] pylons@[k2], COORD_LIMIT as int),
            sup@.len() == n,
            forall|i2: int| 0 <= i2 < n ==> (sup@[i2] <==> supplied_spec(us0, entries@, i2)),
            counts@.len() == crate::board::MAX_PLAYERS,
            forall|p: int|
                0 <= p < crate::board::MAX_PLAYERS ==> counts@[p] == boosted_count_from(
                    us0,
                    entries@,
                    pylons@,
                    crate::board::PlayerId(p as usize),
                    0,
                ),
            new_beams@ + pylon_beams_from(us0, entries@, pylons@, pk as int) == ldb
                + pylon_beams_from(us0, entries@, pylons@, 0),
        decreases np - pk,
    {
        let mut i2: usize = 0;
        while i2 < n
            invariant
                0 <= i2 <= n,
                0 <= pk < np,
                units@ == us0,
                units_wf(us0),
                n == us0.len(),
                np == pylons@.len(),
                forall|k2: int| 0 <= k2 < pylons@.len() ==> in_box(#[trigger] pylons@[k2], COORD_LIMIT as int),
                sup@.len() == n,
                forall|i3: int| 0 <= i3 < n ==> (sup@[i3] <==> supplied_spec(us0, entries@, i3)),
                counts@.len() == crate::board::MAX_PLAYERS,
                forall|p: int|
                    0 <= p < crate::board::MAX_PLAYERS ==> counts@[p] == boosted_count_from(
                        us0,
                        entries@,
                        pylons@,
                        crate::board::PlayerId(p as usize),
                        0,
                    ),
                new_beams@ + pylon_beams_row(us0, entries@, pylons@, pk as int, i2 as int)
                    + pylon_beams_from(us0, entries@, pylons@, pk as int + 1) == ldb
                    + pylon_beams_from(us0, entries@, pylons@, 0),
            decreases n - i2,
        {
            proof {
                assert(crate::graph::unit_wf_at(us0, i2 as int));
            }
            let p = units[i2].player.0;
            if sup[i2] && counts[p] > 0 {
                let d = dist_sq(units[i2].pos, pylons[pk]);
                if d <= PYLON_RADIUS_SQ {
                    new_beams.push(
                        Beam {
                            start: pylons[pk],
                            end: units[i2].pos,
                            color: BeamColor::Blue,
                            thickness: 2_600,
                            remaining_ms: BEAM_LIFETIME_MS,
                        },
                    );
                    proof {
                        assert(new_beams@ + pylon_beams_row(
                            us0,
                            entries@,
                            pylons@,
                            pk as int,
                            i2 as int + 1,
                        ) + pylon_beams_from(us0, entries@, pylons@, pk as int + 1) =~= ldb
                            + pylon_beams_from(us0, entries@, pylons@, 0));
                    }
                } else {
                    proof {
                        assert(pylon_beams_row(us0, entries@, pylons@, pk as int, i2 as int)
                            == pylon_beams_row(us0, entries@, pylons@, pk as int, i2 as int + 1));
                    }
                }
            } else {
                proof {
                    assert(pylon_beams_row(us0, entries@, pylons@, pk as int, i2 as int)
                        == pylon_beams_row(us0, entries@, pylons@, pk as int, i2 as int + 1));
                }
            }
            i2 = i2 + 1;
        }
        pk = pk + 1;
        proof {
            assert(new_beams@ + pylon_beams_from(us0, entries@, pylons@, pk as int) =~= ldb
                + pylon_beams_from(us0, entries@, pylons@, 0));
        }
    }
    proof {
        assert(new_beams@ =~= total_beams);
    }

    // Write pass: cooldowns wrap or reset, supplied units heal.
    let mut i: usize = 0;
    while i < n
        invariant
            0 <= i <= n,
            n == units@.len() == us0.len(),
            units_wf(us0),
            1 <= dt_ms <= MAX_STEP_MS,
            dt == dt_ms,
            sup@.len() == n,
            forall|i2: int| 0 <= i2 < n ==> (sup@[i2] <==> supplied_spec(us0, entries@, i2)),
            conns@.len() == n,
            forall|i2: int| 0 <= i2 < n ==> conns@[i2] == degree_spec(us0, i2),
            fired@.len() == n,
            forall|k2: int|
                0 <= k2 < n ==> fired@[k2] == fires_spec(us0, entries@, pylons@, k2, dt),
            forall|k2: int|
                0 <= k2 < i ==> units@[k2] == pass_unit_spec(us0, entries@, pylons@, k2, dt),
            forall|k2: int| i <= k2 < n ==> units@[k2] == us0[k2],
        decreases n - i,
    {
        proof {
            assert(crate::graph::unit_wf_at(us0, i as int));
            crate::graph::lemma_degree_from_bounds(us0, i as int, 0);
        }
        let u = units[i];
        let e: u64 = u.attack_elapsed_ms + dt_ms;
        let conn = conns[i];
        let healed: i64 = if sup[i] && conn > 0 && u.health < u.max_health {
            proof {
                assert((conn as i64) * (dt_ms as i64) <= 100_000 * 600_000) by (nonlinear_arith)
                    requires
                        0 <= conn as i64 <= 100_000,
                        0 <= dt_ms as i64 <= 600_000,
                ;
                assert((conn as i64) * (dt_ms as i64) >= 0) by (nonlinear_arith)
                    requires
                        0 <= conn as i64,
                        0 <= dt_ms as i64,
                ;
            }
            let h = u.health + (conn as i64) * (dt_ms as i64);
            if h > u.max_health {
                u.max_health
            } else {
                h
            }
        } else {
            u.health
        };
        let e2: u64 = if fired[i] {
            0
        } else if e >= LASER_COOLDOWN_MS {
            e % LASER_COOLDOWN_MS
        } else {
            e
        };
        let nu = Unit { health: healed, attack_elapsed_ms: e2, ..u };
        proof {
            assert(nu == pass_unit_spec(us0, entries@, pylons@, i as int, dt));
        }
        units.set(i, nu);
        i = i + 1;
    }
    proof {
        assert(units@ =~= pass_units_spec(us0, entries@, pylons@, dt));
    }
    let ghost passed = units@;
    proof {
        assert forall|k2: int| 0 <= k2 < n implies (#[trigger] passed[k2]) == (Unit {
            health: passed[k2].health,
            attack_elapsed_ms: passed[k2].attack_elapsed_ms,
            ..us0[k2]
        }) && 0 <= passed[k2].health <= us0[k2].max_health && passed[k2].attack_elapsed_ms
            < LASER_COOLDOWN_MS by {
            assert(crate::graph::unit_wf_at(us0, k2));
            assert(passed[k2] == pass_unit_spec(us0, entries@, pylons@, k2, dt));
        }
    }

    // Apply the queued damage in order; health saturates at zero.
    let m = events.len();
    proof {
        assert(events@.subrange(0, m as int) =~= events@);
    }
    let mut k: usize = 0;
    while k < m
        invariant
            0 <= k <= m,
            m == events@.len(),
            n == units@.len(),
            forall|k2: int|
                0 <= k2 < events@.len() ==> (#[trigger] events@[k2]).target < n
                    && 0 <= events@[k2].amount,
            forall|i2: int| 0 <= i2 < n ==> (#[trigger] units@[i2].health) >= 0,
            apply_events_spec(units@, events@.subrange(k as int, m as int)) == apply_events_spec(
                passed,
                events@,
            ),
        decreases m - k,
    {
        let ev = events[k];
        let ghost pre = units@;
        if ev.target < n {
            let u = units[ev.target];
            let h: i64 = if ev.amount >= u.health {
                0
            } else {
                u.health - ev.amount
            };
            units.set(ev.target, Unit { health: h, ..u });
        }
        proof {
            assert(units@ =~= apply_one_spec(pre, ev));
            assert(events@.subrange(k as int, m as int)[0] == ev);
            assert(events@.subrange(k as int, m as int).subrange(
                1,
                events@.subrange(k as int, m as int).len() as int,
            ) =~= events@.subrange(k as int + 1, m as int));
        }
        k = k + 1;
    }
    proof {
        assert(events@.subrange(m as int, m as int) =~= Seq::<DamageEvent>::empty());
        assert(units@ == apply_events_spec(passed, events@));
    }
    let ghost applied = units@;
    proof {
        lemma_apply_events_frame(passed, events@);
    }

    // Death removal: keep exactly the units with health left.
    let mut out: Vec<Unit> = Vec::new();
    let mut k: usize = 0;
    while k < n
        invariant
            0 <= k <= n,
            n == units@.len(),
            units@ == applied,
            out@ == survivors_spec(applied.take(k as int)),
        decreases n - k,
    {
        let u = units[k];
        proof {
            assert(applied.take(k as int + 1).drop_last() =~= applied.take(k as int));
            assert(applied.take(k as int + 1).last() == applied[k as int]);
        }
        if u.health > 0 {
            out.push(u);
        }
        k = k + 1;
    }
    proof {
        assert(applied.take(n as int) =~= applied);
    }
    *units = out;

    // Emit every beam of the step after the existing ones.
    let nb = new_beams.len();
    let mut k: usize = 0;
    while k < nb
        invariant
            0 <= k <= nb,
            nb == new_beams@.len(),
            beams@ == old(beams)@ + new_beams@.subrange(0, k as int),
        decreases nb - k,
    {
        let b = new_beams[k];
        beams.push(b);
        proof {
            assert(beams@ =~= old(beams)@ + new_beams@.subrange(0, k as int + 1));
        }
        k = k + 1;
    }
    proof {
        assert(new_beams@.subrange(0, nb as int) =~= new_beams@);
        assert(beams@ == old(beams)@ + total_beams);
        // Well-formedness of the final store.
        lemma_survivors_ok(applied);
        assert forall|k2: int| 0 <= k2 < units@.len() implies crate::units::unit_wf(
            #[trigger] units@[k2],
        ) && exists|j: int| 0 <= j < us0.len() && units@[k2].id == us0[j].id by {
            let j = choose|j: int| 0 <= j < applied.len() && units@[k2] == applied[j];
            assert(crate::graph::unit_wf_at(us0, j));
            assert(applied[j] == (Unit {
                health: applied[j].health,
                attack_elapsed_ms: applied[j].attack_elapsed_ms,
                ..us0[j]
            }));
            assert(units@[k2].id == us0[j].id);
        }
        assert(units_wf(units@));
        // Every emitted beam respects the lifetime bound.
        lemma_combat_beams_wf(us0, entries@, pylons@, dt);
        assert forall|k2: int| 0 <= k2 < beams@.len() implies beam_wf(#[trigger] beams@[k2]) by {
            if k2 < old(beams)@.len() {
                assert(beam_wf(old(beams)@[k2]));
            } else {
                assert(beams@[k2] == total_beams[k2 - old(beams)@.len()]);
            }
        }
    }
}

pub proof fn lemma_pylon_beams_row_wf(
    us: Seq<Unit>,
    entries: Seq<SpawnEntry>,
    pylons: Seq<V2>,
    k: int,
    i: int,
)
    ensures
        beams_wf(pylon_beams_row(us, entries, pylons, k, i)),
    decreases us.len() - i,
{
    if !(i < 0 || i >= us.len()) {
        lemma_pylon_beams_row_wf(us, entries, pylons, k, i + 1);
        let row = pylon_beams_row(us, entries, pylons, k, i);
        let rest = pylon_beams_row(us, entries, pylons, k, i + 1);
        assert forall|k2: int| 0 <= k2 < row.len() implies beam_wf(#[trigger] row[k2]) by {
            if row.len() > rest.len() {
                if k2 > 0 {
                    assert(row[k2] == rest[k2 - 1]);
                }
            } else {
                assert(row[k2] == rest[k2]);
            }
        }
    }
}

pub proof fn lemma_pylon_beams_from_wf(
    us: Seq<Unit>,
    entries: Seq<SpawnEntry>,
    pylons: Seq<V2>,
    k: int,
)
    ensures
        beams_wf(pylon_beams_from(us, entries, pylons, k)),
    decreases pylons.len() - k,
{
    if !(k < 0 || k >= pylons.len()) {
        lemma_pylon_beams_row_wf(us, entries, pylons, k, 0);
        lemma_pylon_beams_from_wf(us, entries, pylons, k + 1);
        let row = pylon_beams_row(us, entries, pylons, k, 0);
        let rest = pylon_beams_from(us, entries, pylons, k + 1);
        let whole = pylon_beams_from(us, entries, pylons, k);
        assert forall|k2: int| 0 <= k2 < whole.len() implies beam_wf(#[trigger] whole[k2]) by {
            if k2 < row.len() {
                assert(whole[k2] == row[k2]);
            } else {
                assert(whole[k2] == rest[k2 - row.len()]);
            }
        }
    }
}

/// Every beam a combat step emits respects the lifetime bound.
pub proof fn lemma_combat_beams_wf(
    us: Seq<Unit>,
    entries: Seq<SpawnEntry>,
    pylons: Seq<V2>,
    dt: int,
)
    ensures
        beams_wf(combat_beams_spec(us, entries, pylons, dt)),
{
    lemma_pylon_beams_from_wf(us, entries, pylons, 0);
    let lb = link_beams_spec(us, entries, pylons);
    let db = damage_beams_spec(us, entries, pylons, dt);
    let pb = pylon_beams_from(us, entries, pylons, 0);
    let whole = combat_beams_spec(us, entries, pylons, dt);
    assert forall|k2: int| 0 <= k2 < whole.len() implies beam_wf(#[trigger] whole[k2]) by {
        if k2 < lb.len() {
            assert(whole[k2] == lb[k2]);
        } else if k2 < lb.len() + db.len() {
            assert(whole[k2] == db[k2 - lb.len()]);
        } else {
            assert(whole[k2] == pb[k2 - lb.len() - db.len()]);
            assert(beam_wf(pb[k2 - lb.len() - db.len()]));
        }
    }
}

} // verus!
