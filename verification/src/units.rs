//! Units: creation, rally-seeking movement and pairwise separation.

use vstd::prelude::*;

use crate::board::{PlayerId, MAX_PLAYERS, MAX_STEP_MS};
use crate::fx::{
    clamp_coord, clamp_coord_spec, clamp_len, clamp_len_spec, dist_sq, dist_sq_spec, div_tz, dtz,
    exp_neg, exp_neg_spec, in_box, rescale, rescale_spec, sq, vlen, vlen_spec, V2, COORD_LIMIT,
};

verus! {

/// Rally-seeking speed, fixed-point board units per second.
pub const UNIT_SPEED: i64 = 120_000;

/// Hard cap on unit velocity components: one and a half times `UNIT_SPEED`.
pub const UNIT_VEL_CAP: i64 = 180_000;

/// Exponential smoothing rate of velocity toward the desired velocity.
pub const UNIT_ACCELERATION: i64 = 8;

/// Same-player units closer than this push each other apart.
pub const UNIT_SEPARATION_RADIUS: i64 = 40_000;

/// Velocity impulse applied along the separation push direction.
pub const SEPARATION_FORCE: i64 = 60_000;

/// Attack period of a laser unit, milliseconds.
pub const LASER_COOLDOWN_MS: u64 = 700;

/// Health a laser unit is created with.
pub const UNIT_MAX_HEALTH: i64 = 45_000;

/// Most units the world will hold at once; spawning pauses at the cap so that
/// the all-pairs arithmetic stays within machine integers.
pub const UNIT_CAP: usize = 100_000;

/// Spawn-position jitter half-width.
pub const SPAWN_JITTER: i64 = 20_000;

/// Offset of the two initial units on either side of their anchor.
pub const INITIAL_UNIT_OFFSET: i64 = 18_000;

/// The kind of a unit; only lasers exist in this core.
#[derive(Clone, Copy, Debug, PartialEq, Eq, Structural)]
pub enum UnitKind {
    Laser,
}

impl UnitKind {
    /// Health a fresh unit of this kind carries.
    pub fn health(&self) -> (r: i64)
        ensures
            r == UNIT_MAX_HEALTH,
    {
        match self {
            UnitKind::Laser => UNIT_MAX_HEALTH,
        }
    }

    /// Attack period of this kind, milliseconds.
    pub fn attack_cooldown_ms(&self) -> (r: u64)
        ensures
            r == LASER_COOLDOWN_MS,
    {
        match self {
            UnitKind::Laser => LASER_COOLDOWN_MS,
        }
    }
}

/// A combat unit. Plain integer state: every field takes part in the
/// deterministic tick.
#[derive(Clone, Copy, Debug, PartialEq, Eq, Structural)]
pub struct Unit {
    /// Stable identity, unique within a world.
    pub id: u64,
    pub player: PlayerId,
    pub pos: V2,
    pub rally_target: V2,
    pub kind: UnitKind,
    pub health: i64,
    pub max_health: i64,
    /// Time accrued toward the repeating attack cooldown, milliseconds.
    pub attack_elapsed_ms: u64,
    pub velocity: V2,
    /// Display tint: an index into the player palette (opaque to the core).
    pub base_color: u8,
}

/// Well-formedness of one unit.
pub open spec fn unit_wf(u: Unit) -> bool {
    &&& 0 <= u.health <= u.max_health
    &&& u.max_health == UNIT_MAX_HEALTH
    &&& u.player.0 < MAX_PLAYERS
    &&& in_box(u.pos, COORD_LIMIT as int)
    &&& in_box(u.rally_target, COORD_LIMIT as int)
    &&& in_box(u.velocity, UNIT_VEL_CAP as int)
    &&& u.attack_elapsed_ms < LASER_COOLDOWN_MS
}

/// Well-formedness of the unit store: sound units, capacity respected and
/// identities distinct.
pub open spec fn units_wf(us: Seq<Unit>) -> bool {
    &&& forall|i: int| 0 <= i < us.len() ==> unit_wf(#[trigger] us[i])
    &&& us.len() <= UNIT_CAP
    &&& forall|i: int, j: int| 0 <= i < j < us.len() ==> #[trigger] us[i].id != #[trigger] us[j].id
}

/// All identities lie below the world's id counter.
pub open spec fn ids_below(us: Seq<Unit>, next: u64) -> bool {
    forall|i: int| 0 <= i < us.len() ==> (#[trigger] us[i].id) < next
}

/// The unit a spawn produces.
pub open spec fn spawned_unit_spec(player: PlayerId, pos: V2, rally: V2, id: u64) -> Unit {
    Unit {
        id,
        player,
        pos: clamp_coord_spec(pos),
        rally_target: clamp_coord_spec(rally),
        kind: UnitKind::Laser,
        health: UNIT_MAX_HEALTH,
        max_health: UNIT_MAX_HEALTH,
        attack_elapsed_ms: 0,
        velocity: V2 { x: 0, y: 0 },
        base_color: player.0 as u8,
    }
}

/// Create one unit at `pos` rallying to `rally`, with full health, zero
/// velocity and a fresh attack timer.
pub fn spawn_unit(player: PlayerId, pos: V2, rally: V2, id: u64) -> (r: Unit)
    requires
        player.0 < MAX_PLAYERS,
    ensures
        r == spawned_unit_spec(player, pos, rally, id),
        unit_wf(r),
{
    Unit {
        id,
        player,
        pos: clamp_coord(pos),
        rally_target: clamp_coord(rally),
        kind: UnitKind::Laser,
        health: UNIT_MAX_HEALTH,
        max_health: UNIT_MAX_HEALTH,
        attack_elapsed_ms: 0,
        velocity: V2 { x: 0, y: 0 },
        base_color: player.0 as u8,
    }
}

/// The movement smoothing factor `1 - exp(-UNIT_ACCELERATION * dt)`,
/// fixed-point.
pub open spec fn move_alpha_spec(dt: int) -> int {
    1000 - exp_neg_spec(8 * dt)
}

/// The velocity a unit steers toward: full speed along the line to its rally
/// target, or rest within one board unit of it.
pub open spec fn desired_velocity_spec(u: Unit) -> V2 {
    let d = V2 { x: (u.rally_target.x - u.pos.x) as i64, y: (u.rally_target.y - u.pos.y) as i64 };
    if dist_sq_spec(u.rally_target, u.pos) > 1_000_000 {
        rescale_spec(d, vlen_spec(d), UNIT_SPEED as int)
    } else {
        V2 { x: 0, y: 0 }
    }
}

/// Linear interpolation of `v` toward `d` by `alpha` thousandths.
pub open spec fn lerp_spec(v: V2, d: V2, alpha: int) -> V2 {
    V2 {
        x: (v.x + dtz((d.x - v.x) * alpha, 1000)) as i64,
        y: (v.y + dtz((d.y - v.y) * alpha, 1000)) as i64,
    }
}

/// One unit after the movement step of a tick of `dt` milliseconds.
pub open spec fn moved_unit_spec(u: Unit, dt: int) -> Unit {
    let alpha = move_alpha_spec(dt);
    let v = lerp_spec(u.velocity, desired_velocity_spec(u), alpha);
    let p = clamp_coord_spec(
        V2 { x: (u.pos.x + dtz(v.x * dt, 1000)) as i64, y: (u.pos.y + dtz(v.y * dt, 1000)) as i64 },
    );
    Unit { pos: p, velocity: v, ..u }
}

/// The movement step over the whole store.
pub open spec fn moved_units_spec(us: Seq<Unit>, dt: int) -> Seq<Unit> {
    Seq::new(us.len(), |i: int| moved_unit_spec(us[i], dt))
}

/// Truncated interpolation lands between its endpoints.
pub proof fn lemma_lerp_between(v: int, d: int, alpha: int)
    by (nonlinear_arith)
    requires
        0 <= alpha <= 1000,
    ensures
        v <= d ==> v <= v + dtz((d - v) * alpha, 1000) <= d,
        d <= v ==> d <= v + dtz((d - v) * alpha, 1000) <= v,
{
}

/// Advance every unit's velocity toward its desired velocity and integrate
/// its position, exactly as `moved_units_spec` describes.
pub fn move_units(units: &mut Vec<Unit>, dt_ms: u64)
    requires
        units_wf(old(units)@),
        1 <= dt_ms <= MAX_STEP_MS,
    ensures
        final(units)@ == moved_units_spec(old(units)@, dt_ms as int),
        units_wf(final(units)@),
{
    let dt: i64 = dt_ms as i64;
    let alpha: i64 = 1000 - exp_neg(8 * dt);
    let n = units.len();
    let mut i: usize = 0;
    while i < n
        invariant
            0 <= i <= n,
            n == units@.len() == old(units)@.len(),
            units_wf(old(units)@),
            1 <= dt <= MAX_STEP_MS,
            dt == dt_ms,
            alpha == move_alpha_spec(dt as int),
            0 <= alpha <= 1000,
            forall|k: int| 0 <= k < i ==> units@[k] == moved_unit_spec(old(units)@[k], dt as int),
            forall|k: int| 0 <= k < i ==> unit_wf(#[trigger] units@[k]),
            forall|k: int| i <= k < n ==> units@[k] == old(units)@[k],
        decreases n - i,
    {
        let u = units[i];
        assert(u == old(units)@[i as int]);
        assert(unit_wf(u));
        let dx = u.rally_target.x - u.pos.x;
        let dy = u.rally_target.y - u.pos.y;
        let delta = V2 { x: dx, y: dy };
        let dsq = dist_sq(u.rally_target, u.pos);
        let desired: V2 = if dsq > 1_000_000 {
            proof {
                assert(sq(delta.x as int) + sq(delta.y as int) == dist_sq_spec(
                    u.rally_target,
                    u.pos,
                ));
                if vlen_spec(delta) < 1 {
                    crate::fx::lemma_fsqrt_bounds(sq(delta.x as int) + sq(delta.y as int));
                }
            }
            let l = vlen(delta);
            rescale(delta, l, UNIT_SPEED)
        } else {
            V2 { x: 0, y: 0 }
        };
        proof {
            assert(desired == desired_velocity_spec(u));
            assert(in_box(desired, UNIT_SPEED as int));
            lemma_lerp_between(u.velocity.x as int, desired.x as int, alpha as int);
            lemma_lerp_between(u.velocity.y as int, desired.y as int, alpha as int);
            assert(-300_000_000 <= (desired.x - u.velocity.x) * alpha <= 300_000_000)
                by (nonlinear_arith)
                requires
                    -300_000 <= desired.x - u.velocity.x <= 300_000,
                    0 <= alpha <= 1000,
            ;
            assert(-300_000_000 <= (desired.y - u.velocity.y) * alpha <= 300_000_000)
                by (nonlinear_arith)
                requires
                    -300_000 <= desired.y - u.velocity.y <= 300_000,
                    0 <= alpha <= 1000,
            ;
        }
        let sx = div_tz((desired.x - u.velocity.x) * alpha, 1000);
        let sy = div_tz((desired.y - u.velocity.y) * alpha, 1000);
        let v = V2 { x: u.velocity.x + sx, y: u.velocity.y + sy };
        assert(v == lerp_spec(u.velocity, desired, alpha as int));
        assert(in_box(v, UNIT_VEL_CAP as int));
        proof {
            assert(-180_000 * 600_000 <= v.x * dt <= 180_000 * 600_000) by (nonlinear_arith)
                requires
                    -180_000 <= v.x <= 180_000,
                    1 <= dt <= 600_000,
            ;
            assert(-180_000 * 600_000 <= v.y * dt <= 180_000 * 600_000) by (nonlinear_arith)
                requires
                    -180_000 <= v.y <= 180_000,
                    1 <= dt <= 600_000,
            ;
            assert(-108_000_000 <= dtz(v.x * dt, 1000) <= 108_000_000) by (nonlinear_arith)
                requires
                    -108_000_000_000 <= v.x * dt <= 108_000_000_000,
            ;
            assert(-108_000_000 <= dtz(v.y * dt, 1000) <= 108_000_000) by (nonlinear_arith)
                requires
                    -108_000_000_000 <= v.y * dt <= 108_000_000_000,
            ;
        }
        let px = u.pos.x + div_tz(v.x * dt, 1000);
        let py = u.pos.y + div_tz(v.y * dt, 1000);
        let p = clamp_coord(V2 { x: px, y: py });
        let nu = Unit { pos: p, velocity: v, ..u };
        assert(nu == moved_unit_spec(old(units)@[i as int], dt as int));
        units.set(i, nu);
        i = i + 1;
    }
    proof {
        assert(units@ =~= moved_units_spec(old(units)@, dt_ms as int));
    }
}

/// The separation push `other` exerts on `me`: along the line between them,
/// fading linearly to zero at the separation radius, for same-player units
/// strictly between a tenth of a unit and the radius apart.
pub open spec fn sep_term_spec(me: Unit, other: Unit) -> V2 {
    let off = V2 { x: (me.pos.x - other.pos.x) as i64, y: (me.pos.y - other.pos.y) as i64 };
    let d = vlen_spec(off);
    if me.player == other.player && 100 < d && d < UNIT_SEPARATION_RADIUS {
        let n = rescale_spec(off, d, 1000);
        V2 {
            x: dtz(n.x * (UNIT_SEPARATION_RADIUS - d), UNIT_SEPARATION_RADIUS as int) as i64,
            y: dtz(n.y * (UNIT_SEPARATION_RADIUS - d), UNIT_SEPARATION_RADIUS as int) as i64,
        }
    } else {
        V2 { x: 0, y: 0 }
    }
}

/// Sum of the pushes on unit `i` from every unit at index `j` onward (a unit
/// exerts no push on itself: its own term is zero).
pub open spec fn push_sum_spec(us: Seq<Unit>, i: int, j: int) -> V2
    decreases us.len() - j,
{
    if j < 0 || j >= us.len() {
        V2 { x: 0, y: 0 }
    } else {
        let t = sep_term_spec(us[i], us[j]);
        let rest = push_sum_spec(us, i, j + 1);
        V2 { x: (t.x + rest.x) as i64, y: (t.y + rest.y) as i64 }
    }
}

/// Each separation term is a sub-unit vector.
pub proof fn lemma_sep_term_bound(me: Unit, other: Unit)
    requires
        in_box(me.pos, COORD_LIMIT as int),
        in_box(other.pos, COORD_LIMIT as int),
    ensures
        in_box(sep_term_spec(me, other), 1000),
{
    let off = V2 { x: (me.pos.x - other.pos.x) as i64, y: (me.pos.y - other.pos.y) as i64 };
    let d = vlen_spec(off);
    if me.player == other.player && 100 < d && d < UNIT_SEPARATION_RADIUS {
        crate::fx::lemma_component_le_len(off);
        crate::fx::lemma_rescale_component_bound(off.x as int, 1000, d);
        crate::fx::lemma_rescale_component_bound(off.y as int, 1000, d);
        let n = rescale_spec(off, d, 1000);
        assert(-1000 <= dtz(n.x * (UNIT_SEPARATION_RADIUS - d), UNIT_SEPARATION_RADIUS as int)
            <= 1000) by (nonlinear_arith)
            requires
                -1000 <= n.x <= 1000,
                100 < d < UNIT_SEPARATION_RADIUS as int,
        ;
        assert(-1000 <= dtz(n.y * (UNIT_SEPARATION_RADIUS - d), UNIT_SEPARATION_RADIUS as int)
            <= 1000) by (nonlinear_arith)
            requires
                -1000 <= n.y <= 1000,
                100 < d < UNIT_SEPARATION_RADIUS as int,
        ;
    }
}

/// The tail sum from `j` is bounded by a thousand per remaining unit.
pub proof fn lemma_push_sum_bound(us: Seq<Unit>, i: int, j: int)
    requires
        forall|k: int| 0 <= k < us.len() ==> in_box(#[trigger] us[k].pos, COORD_LIMIT as int),
        0 <= i < us.len(),
        0 <= j <= us.len(),
        us.len() <= UNIT_CAP,
    ensures
        in_box(push_sum_spec(us, i, j), 1000 * (us.len() - j)),
        in_box(push_sum_spec(us, i, j), 100_000_000),
    decreases us.len() - j,
{
    if 0 <= j && j < us.len() {
        lemma_sep_term_bound(us[i], us[j]);
        lemma_push_sum_bound(us, i, j + 1);
    }
}

/// One unit after the separation step: if its same-player neighbours push it,
/// its rally target is nudged five board units along the push direction and
/// its velocity gains an impulse of `SEPARATION_FORCE`, capped at one and a
/// half times unit speed.
pub open spec fn separated_unit_spec(us: Seq<Unit>, i: int) -> Unit {
    let u = us[i];
    let push = push_sum_spec(us, i, 0);
    if push != (V2 { x: 0, y: 0 }) {
        let pd = rescale_spec(push, vlen_spec(push), 1000);
        let rally = clamp_coord_spec(
            V2 { x: (u.rally_target.x + 5 * pd.x) as i64, y: (u.rally_target.y + 5 * pd.y) as i64 },
        );
        let vel = clamp_len_spec(
            V2 { x: (u.velocity.x + 60 * pd.x) as i64, y: (u.velocity.y + 60 * pd.y) as i64 },
            UNIT_VEL_CAP as int,
        );
        Unit { rally_target: rally, velocity: vel, ..u }
    } else {
        u
    }
}

pub open spec fn separated_units_spec(us: Seq<Unit>) -> Seq<Unit> {
    Seq::new(us.len(), |i: int| separated_unit_spec(us, i))
}

/// The separation step over the whole store, reading a snapshot of positions
/// taken before any mutation.
pub fn update_unit_rally_targets(units: &mut Vec<Unit>)
    requires
        units_wf(old(units)@),
    ensures
        final(units)@ == separated_units_spec(old(units)@),
        units_wf(final(units)@),
{
    let ghost us0 = old(units)@;
    let n = units.len();
    let mut i: usize = 0;
    while i < n
        invariant
            0 <= i <= n,
            n == units@.len() == us0.len(),
            units_wf(us0),
            forall|k: int| 0 <= k < i ==> units@[k] == separated_unit_spec(us0, k),
            forall|k: int| 0 <= k < i ==> unit_wf(#[trigger] units@[k]),
            forall|k: int| i <= k < n ==> units@[k] == us0[k],
        decreases n - i,
    {
        let u = units[i];
        assert(u == us0[i as int]);
        let mut push = V2 { x: 0, y: 0 };
        let mut j: usize = n;
        // Accumulate the tail sums from the back so the running value matches
        // `push_sum_spec(us0, i, j)` directly.
        while j > 0
            invariant
                0 <= j <= n,
                n == units@.len() == us0.len(),
                units_wf(us0),
                0 <= i < n,
                u == us0[i as int],
                forall|k: int| i <= k < n ==> units@[k] == us0[k],
                forall|k: int| 0 <= k < i ==> units@[k] == separated_unit_spec(us0, k),
                push == push_sum_spec(us0, i as int, j as int),
                in_box(push, 1000 * (n - j)),
            decreases j,
        {
            j = j - 1;
            // This pass never writes positions or players, so the live store
            // still carries the snapshot values.
            let other_pos = units[j].pos;
            proof {
                if j < i {
                    assert(units@[j as int] == separated_unit_spec(us0, j as int));
                }
                assert(unit_wf(us0[j as int]));
                assert(unit_wf(us0[i as int]));
                assert(units@[j as int].pos == us0[j as int].pos);
                assert(units@[j as int].player == us0[j as int].player);
                assert(in_box(other_pos, COORD_LIMIT as int));
                assert(in_box(u.pos, COORD_LIMIT as int));
            }
            let off = V2 { x: u.pos.x - other_pos.x, y: u.pos.y - other_pos.y };
            let same = u.player.0 == units[j].player.0;
            proof {
                assert(units@[j as int].player == us0[j as int].player);
                lemma_sep_term_bound(us0[i as int], us0[j as int]);
            }
            let d = vlen(off);
            if same && 100 < d && d < UNIT_SEPARATION_RADIUS {
                let nrm = rescale(off, d, 1000);
                proof {
                    assert(-40_000_000 <= nrm.x * (UNIT_SEPARATION_RADIUS - d) <= 40_000_000)
                        by (nonlinear_arith)
                        requires
                            -1000 <= nrm.x <= 1000,
                            0 < UNIT_SEPARATION_RADIUS - d < 40_000,
                    ;
                    assert(-40_000_000 <= nrm.y * (UNIT_SEPARATION_RADIUS - d) <= 40_000_000)
                        by (nonlinear_arith)
                        requires
                            -1000 <= nrm.y <= 1000,
                            0 < UNIT_SEPARATION_RADIUS - d < 40_000,
                    ;
                }
                let tx = div_tz(nrm.x * (UNIT_SEPARATION_RADIUS - d), UNIT_SEPARATION_RADIUS);
                let ty = div_tz(nrm.y * (UNIT_SEPARATION_RADIUS - d), UNIT_SEPARATION_RADIUS);
                assert((V2 { x: tx, y: ty }) == sep_term_spec(us0[i as int], us0[j as int]));
                push = V2 { x: tx + push.x, y: ty + push.y };
            } else {
                assert((V2 { x: 0i64, y: 0i64 }) == sep_term_spec(us0[i as int], us0[j as int]));
            }
            proof {
                lemma_push_sum_bound(us0, i as int, j as int);
            }
        }
        assert(push == push_sum_spec(us0, i as int, 0));
        if push.x != 0 || push.y != 0 {
            proof {
                lemma_push_sum_bound(us0, i as int, 0);
                assert(sq(push.x as int) + sq(push.y as int) >= 1) by (nonlinear_arith)
                    requires
                        push.x != 0 || push.y != 0,
                ;
                if vlen_spec(push) < 1 {
                    crate::fx::lemma_fsqrt_bounds(sq(push.x as int) + sq(push.y as int));
                    assert(false);
                }
            }
            let l = vlen(push);
            let pd = rescale(push, l, 1000);
            let rally = clamp_coord(
                V2 { x: u.rally_target.x + 5 * pd.x, y: u.rally_target.y + 5 * pd.y },
            );
            let vel = clamp_len(
                V2 { x: u.velocity.x + 60 * pd.x, y: u.velocity.y + 60 * pd.y },
                UNIT_VEL_CAP,
            );
            proof {
                if vlen_spec(
                    V2 {
                        x: (u.velocity.x + 60 * pd.x) as i64,
                        y: (u.velocity.y + 60 * pd.y) as i64,
                    },
                ) <= UNIT_VEL_CAP as int {
                    crate::fx::lemma_component_le_len(
                        V2 {
                            x: (u.velocity.x + 60 * pd.x) as i64,
                            y: (u.velocity.y + 60 * pd.y) as i64,
                        },
                    );
                }
            }
            let nu = Unit { rally_target: rally, velocity: vel, ..u };
            assert(nu == separated_unit_spec(us0, i as int));
            assert(unit_wf(nu));
            units.set(i, nu);
        } else {
            assert(u == separated_unit_spec(us0, i as int));
            units.set(i, u);
        }
        i = i + 1;
    }
    proof {
        assert(units@ =~= separated_units_spec(us0));
    }
}

/// Prefix centroid data: how many of the first `j` units belong to `p`, and
/// the component sums of their positions.
pub open spec fn centroid_acc_spec(us: Seq<Unit>, p: PlayerId, j: int) -> (int, int, int)
    decreases j,
{
    if j <= 0 {
        (0, 0, 0)
    } else {
        let rest = centroid_acc_spec(us, p, j - 1);
        if us[j - 1].player == p {
            (rest.0 + 1, rest.1 + us[j - 1].pos.x, rest.2 + us[j - 1].pos.y)
        } else {
            rest
        }
    }
}

/// The centroid of a player's units, if any exist.
pub open spec fn centroid_spec(us: Seq<Unit>, p: PlayerId) -> Option<V2> {
    let acc = centroid_acc_spec(us, p, us.len() as int);
    if acc.0 > 0 {
        Some(V2 { x: dtz(acc.1, acc.0) as i64, y: dtz(acc.2, acc.0) as i64 })
    } else {
        None
    }
}

pub proof fn lemma_centroid_acc_bounds(us: Seq<Unit>, p: PlayerId, j: int)
    requires
        forall|i: int| 0 <= i < us.len() ==> in_box(#[trigger] us[i].pos, COORD_LIMIT as int),
        us.len() <= UNIT_CAP,
        0 <= j <= us.len(),
    ensures
        0 <= centroid_acc_spec(us, p, j).0 <= j,
        -1_000_000_000 * centroid_acc_spec(us, p, j).0 <= centroid_acc_spec(us, p, j).1
            <= 1_000_000_000 * centroid_acc_spec(us, p, j).0,
        -1_000_000_000 * centroid_acc_spec(us, p, j).0 <= centroid_acc_spec(us, p, j).2
            <= 1_000_000_000 * centroid_acc_spec(us, p, j).0,
    decreases j,
{
    if j > 0 {
        lemma_centroid_acc_bounds(us, p, j - 1);
        let rest = centroid_acc_spec(us, p, j - 1);
        if us[j - 1].player == p {
            assert(-1_000_000_000 * (rest.0 + 1) <= rest.1 + us[j - 1].pos.x <= 1_000_000_000
                * (rest.0 + 1)) by (nonlinear_arith)
                requires
                    -1_000_000_000 * rest.0 <= rest.1 <= 1_000_000_000 * rest.0,
                    -1_000_000_000 <= us[j - 1].pos.x <= 1_000_000_000,
            ;
            assert(-1_000_000_000 * (rest.0 + 1) <= rest.2 + us[j - 1].pos.y <= 1_000_000_000
                * (rest.0 + 1)) by (nonlinear_arith)
                requires
                    -1_000_000_000 * rest.0 <= rest.2 <= 1_000_000_000 * rest.0,
                    -1_000_000_000 <= us[j - 1].pos.y <= 1_000_000_000,
            ;
        }
    }
}

/// Centroid of the positions of a player's alive units; `None` when the
/// player has none.
pub fn average_unit_position(units: &Vec<Unit>, player: PlayerId) -> (r: Option<V2>)
    requires
        units_wf(units@),
    ensures
        r == centroid_spec(units@, player),
        r is Some ==> in_box(r->Some_0, COORD_LIMIT as int),
{
    let n = units.len();
    let mut cnt: i64 = 0;
    let mut sx: i64 = 0;
    let mut sy: i64 = 0;
    let mut j: usize = 0;
    while j < n
        invariant
            0 <= j <= n,
            n == units@.len(),
            units_wf(units@),
            (cnt as int, sx as int, sy as int) == centroid_acc_spec(units@, player, j as int),
            0 <= cnt <= j,
            -1_000_000_000 * cnt <= sx <= 1_000_000_000 * cnt,
            -1_000_000_000 * cnt <= sy <= 1_000_000_000 * cnt,
        decreases n - j,
    {
        proof {
            assert(1_000_000_000 * (cnt as int) <= 1_000_000_000 * 100_000)
                by (nonlinear_arith)
                requires
                    0 <= cnt as int <= UNIT_CAP as int,
            ;
        }
        proof {
            assert(unit_wf(units@[j as int]));
        }
        if units[j].player.0 == player.0 {
            assert(units@[j as int].player == player);
            cnt = cnt + 1;
            sx = sx + units[j].pos.x;
            sy = sy + units[j].pos.y;
        } else {
            assert(units@[j as int].player != player);
        }
        j = j + 1;
    }
    if cnt > 0 {
        let cx = div_tz(sx, cnt);
        let cy = div_tz(sy, cnt);
        proof {
            assert(-COORD_LIMIT as int <= dtz(sx as int, cnt as int) <= COORD_LIMIT as int)
                by (nonlinear_arith)
                requires
                    1 <= cnt as int,
                    -1_000_000_000 * (cnt as int) <= sx as int <= 1_000_000_000 * (cnt as int),
            ;
            assert(-COORD_LIMIT as int <= dtz(sy as int, cnt as int) <= COORD_LIMIT as int)
                by (nonlinear_arith)
                requires
                    1 <= cnt as int,
                    -1_000_000_000 * (cnt as int) <= sy as int <= 1_000_000_000 * (cnt as int),
            ;
        }
        Some(V2 { x: cx, y: cy })
    } else {
        None
    }
}

} // verus!
