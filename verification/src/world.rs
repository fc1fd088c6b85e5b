//! The world: construction from a plain parameter record, the fixed-step
//! tick pipeline, and the frame-rate command systems.
//!
//! Every mutation of the world is pinned by its contract to a specification
//! function of the previous state and the inputs alone, so a whole run is a
//! mathematical function of `(seed, board, command log, tick schedule)`:
//! the determinism the simulation promises.

use vstd::prelude::*;

use crate::board::{
    config_ok, registry_spec, setup_board, BoardSettings, ConfigError, ControlSettings,
    SimulationParams, SpawnEntry, MAX_PLAYERS, MAX_STEP_MS, MIN_PLAYERS,
};
use crate::combat::{
    beams_wf, combat_beams_spec, combat_units_spec, unit_combat_system, Beam, BEAM_LIFETIME_MS,
};
use crate::fx::{in_box, V2, COORD_LIMIT};
use crate::pylons::{
    animate_pylons, animate_pylons_spec, pylons_wf, rng_adv, spawn_pylons, spawn_pylons_spec,
    Pylon,
};
use crate::rng::{sm_in_range, SimulationRng};
use crate::selection::{
    alive_filter, handle_selection_input, issue_move_orders, orders_step_spec, prune_selection,
    sel_wf, selection_step_spec, CommandBatch, SelectionState, SelView,
};
use crate::units::{
    average_unit_position, centroid_spec, ids_below, move_units, moved_units_spec,
    separated_units_spec, spawn_unit, spawned_unit_spec, units_wf, update_unit_rally_targets,
    Unit, INITIAL_UNIT_OFFSET, SPAWN_JITTER, UNIT_CAP,
};

verus! {

/// Longest spawn period accepted, so that timer arithmetic stays within
/// machine integers.
pub const MAX_SPAWN_INTERVAL_MS: u64 = 1_000_000_000_000;

/// The mathematical value of a world.
pub struct WorldView {
    pub params: SimulationParams,
    pub board: BoardSettings,
    pub control: ControlSettings,
    pub rng: SimulationRng,
    pub registry: Seq<SpawnEntry>,
    pub spawn_elapsed: Seq<u64>,
    pub units: Seq<Unit>,
    pub next_id: u64,
    pub pylons: Seq<Pylon>,
    pub beams: Seq<Beam>,
    pub selection: SelView,
    pub acc_ms: u64,
    pub tick: u64,
}

/// The simulation world. It owns every entity; all mutation passes through
/// the contracted methods below.
pub struct World {
    pub params: SimulationParams,
    pub board: BoardSettings,
    pub control: ControlSettings,
    pub rng: SimulationRng,
    pub registry: Vec<SpawnEntry>,
    pub spawn_elapsed: Vec<u64>,
    pub units: Vec<Unit>,
    pub next_id: u64,
    pub pylons: Vec<Pylon>,
    pub beams: Vec<Beam>,
    pub selection: SelectionState,
    pub acc_ms: u64,
    pub tick: u64,
}

impl View for World {
    type V = WorldView;

    open spec fn view(&self) -> WorldView {
        WorldView {
            params: self.params,
            board: self.board,
            control: self.control,
            rng: self.rng,
            registry: self.registry@,
            spawn_elapsed: self.spawn_elapsed@,
            units: self.units@,
            next_id: self.next_id,
            pylons: self.pylons@,
            beams: self.beams@,
            selection: self.selection@,
            acc_ms: self.acc_ms,
            tick: self.tick,
        }
    }
}

/// The configuration space the world accepts, machine bounds included.
pub open spec fn world_config_ok(params: SimulationParams, board: BoardSettings) -> bool {
    &&& config_ok(params, board)
    &&& board.spawn_interval_ms <= MAX_SPAWN_INTERVAL_MS
}

/// Well-formedness of the world's entities and configuration. In particular
/// every unit's health lies in `[0, max_health]` at every tick boundary.
pub open spec fn world_wf_core(v: WorldView) -> bool {
    &&& world_config_ok(v.params, v.board)
    &&& v.registry == registry_spec(v.board)
    &&& v.spawn_elapsed.len() == v.registry.len()
    &&& forall|i: int|
        0 <= i < v.spawn_elapsed.len() ==> (#[trigger] v.spawn_elapsed[i])
            < v.board.spawn_interval_ms
    &&& units_wf(v.units)
    &&& ids_below(v.units, v.next_id)
    &&& pylons_wf(v.pylons)
    &&& beams_wf(v.beams)
    &&& sel_wf(v.selection)
}

/// Well-formedness of a world between frames: entities sound and the
/// fixed-step accumulator drained below one tick.
pub open spec fn world_wf(v: WorldView) -> bool {
    &&& world_wf_core(v)
    &&& v.acc_ms < v.params.fixed_delta_ms
}

/// The two initial units of each player, at `anchor +- (18, 0)`, rallying to
/// the anchor, in registry order; ids count up from zero.
pub open spec fn initial_units_spec(board: BoardSettings) -> Seq<Unit> {
    let reg = registry_spec(board);
    Seq::new(
        2 * reg.len(),
        |k: int|
            {
                let e = reg[k / 2];
                let off: int = if k % 2 == 0 {
                    INITIAL_UNIT_OFFSET as int
                } else {
                    -INITIAL_UNIT_OFFSET as int
                };
                spawned_unit_spec(
                    e.player,
                    V2 { x: (e.position.x + off) as i64, y: e.position.y },
                    e.position,
                    k as u64,
                )
            },
    )
}

/// The view a fresh world has. The stream consumes exactly the pylon draws.
pub open spec fn build_view(
    params: SimulationParams,
    board: BoardSettings,
    control: ControlSettings,
) -> WorldView {
    let rng0 = SimulationRng { seed: params.seed, state: params.seed };
    let ps = spawn_pylons_spec(rng0, board.board_size as int);
    WorldView {
        params,
        board,
        control,
        rng: ps.1,
        registry: registry_spec(board),
        spawn_elapsed: Seq::new(registry_spec(board).len(), |i: int| 0u64),
        units: initial_units_spec(board),
        next_id: (2 * board.player_count) as u64,
        pylons: ps.0,
        beams: Seq::empty(),
        selection: SelView {
            is_dragging: false,
            start_world: V2 { x: 0, y: 0 },
            current_world: V2 { x: 0, y: 0 },
            selected: Seq::empty(),
            prev_selected: Seq::empty(),
            dirty: false,
        },
        acc_ms: 0,
        tick: 0,
    }
}

/// One spawn pass over the registry entries from `idx` onward: each timer
/// accrues `dt` and wraps when it finishes, and each finished timer spawns
/// one unit (while capacity and identities remain) at the anchor plus jitter,
/// rallying to the player's centroid, or the anchor if the player has no
/// units. The two jitter draws are the only draws of a tick.
pub open spec fn spawn_from_spec(
    us0: Seq<Unit>,
    acc: Seq<Unit>,
    reg: Seq<SpawnEntry>,
    timers: Seq<u64>,
    rng: SimulationRng,
    next_id: u64,
    interval: u64,
    dt: u64,
    idx: int,
) -> (Seq<Unit>, Seq<u64>, SimulationRng, u64)
    decreases reg.len() - idx,
{
    if idx < 0 || idx >= reg.len() {
        (acc, timers, rng, next_id)
    } else {
        let e = timers[idx] + dt;
        if e >= interval {
            let timers2 = timers.update(idx, (e % (interval as int)) as u64);
            if us0.len() + acc.len() < UNIT_CAP && next_id < u64::MAX {
                let jx = sm_in_range(rng.state, -SPAWN_JITTER as int, SPAWN_JITTER as int);
                let rng1 = rng_adv(rng);
                let jy = sm_in_range(rng1.state, -SPAWN_JITTER as int, SPAWN_JITTER as int);
                let rng2 = rng_adv(rng1);
                let pos = V2 { x: (reg[idx].position.x + jx) as i64, y: (reg[idx].position.y + jy) as i64 };
                let rally = match centroid_spec(us0, reg[idx].player) {
                    Some(c) => c,
                    None => reg[idx].position,
                };
                let u = spawned_unit_spec(reg[idx].player, pos, rally, next_id);
                spawn_from_spec(
                    us0,
                    acc.push(u),
                    reg,
                    timers2,
                    rng2,
                    (next_id + 1) as u64,
                    interval,
                    dt,
                    idx + 1,
                )
            } else {
                spawn_from_spec(us0, acc, reg, timers2, rng, next_id, interval, dt, idx + 1)
            }
        } else {
            spawn_from_spec(
                us0,
                acc,
                reg,
                timers.update(idx, e as u64),
                rng,
                next_id,
                interval,
                dt,
                idx + 1,
            )
        }
    }
}

/// The positions of the pylons, for the combat step.
pub open spec fn pylon_positions_spec(ps: Seq<Pylon>) -> Seq<V2> {
    Seq::new(ps.len(), |i: int| ps[i].pos)
}

/// One fixed tick: spawn, movement, separation, then combat; finally the
/// selection is pruned of the units that died.
#[verifier::opaque]
pub open spec fn step_tick_spec(v: WorldView, dt: u64) -> WorldView {
    let sp = spawn_from_spec(
        v.units,
        Seq::empty(),
        v.registry,
        v.spawn_elapsed,
        v.rng,
        v.next_id,
        v.board.spawn_interval_ms,
        dt,
        0,
    );
    let us1 = v.units + sp.0;
    let us2 = moved_units_spec(us1, dt as int);
    let us3 = separated_units_spec(us2);
    let pp = pylon_positions_spec(v.pylons);
    let us4 = combat_units_spec(us3, v.registry, pp, dt as int);
    WorldView {
        units: us4,
        spawn_elapsed: sp.1,
        rng: sp.2,
        next_id: sp.3,
        beams: v.beams + combat_beams_spec(us3, v.registry, pp, dt as int),
        selection: SelView {
            selected: alive_filter(v.selection.selected, us4, Seq::empty()),
            ..v.selection
        },
        tick: v.tick.wrapping_add(1),
        ..v
    }
}

/// The beams still alive after `dt` milliseconds, each with its remaining
/// life reduced, in order.
pub open spec fn expire_beams_spec(bs: Seq<Beam>, dt: u64) -> Seq<Beam>
    decreases bs.len(),
{
    if bs.len() == 0 {
        Seq::empty()
    } else {
        expire_beams_spec(bs.drop_last(), dt) + if bs.last().remaining_ms > dt {
            seq![
                Beam { remaining_ms: (bs.last().remaining_ms - dt) as u64, ..bs.last() },
            ]
        } else {
            Seq::empty()
        }
    }
}

/// Beam expiry: every beam that survives a frame has strictly less remaining
/// life, short of the full lifetime by at least the frame time; so a beam
/// emitted at some tick is destroyed by the frame that completes
/// `BEAM_LIFETIME_MS` after it.
pub proof fn lemma_beam_expiry(bs: Seq<Beam>, dt: u64, k: int)
    requires
        beams_wf(bs),
        1 <= dt,
        0 <= k < expire_beams_spec(bs, dt).len(),
    ensures
        expire_beams_spec(bs, dt)[k].remaining_ms + dt <= BEAM_LIFETIME_MS,
        expire_beams_spec(bs, dt)[k].remaining_ms >= 1,
    decreases bs.len(),
{
    if bs.len() > 0 {
        let rest = expire_beams_spec(bs.drop_last(), dt);
        assert(beams_wf(bs.drop_last())) by {
            assert forall|i: int| 0 <= i < bs.drop_last().len() implies crate::combat::beam_wf(
                #[trigger] bs.drop_last()[i],
            ) by {
                assert(bs.drop_last()[i] == bs[i]);
            }
        }
        if k < rest.len() {
            lemma_beam_expiry(bs.drop_last(), dt, k);
        } else {
            assert(crate::combat::beam_wf(bs[bs.len() - 1]));
        }
    }
}

/// A frame at least the beam lifetime long clears every beam.
pub proof fn lemma_beam_expiry_clears(bs: Seq<Beam>, dt: u64)
    requires
        beams_wf(bs),
        dt >= BEAM_LIFETIME_MS,
    ensures
        expire_beams_spec(bs, dt).len() == 0,
    decreases bs.len(),
{
    if bs.len() > 0 {
        assert(beams_wf(bs.drop_last())) by {
            assert forall|i: int| 0 <= i < bs.drop_last().len() implies crate::combat::beam_wf(
                #[trigger] bs.drop_last()[i],
            ) by {
                assert(bs.drop_last()[i] == bs[i]);
            }
        }
        lemma_beam_expiry_clears(bs.drop_last(), dt);
        assert(crate::combat::beam_wf(bs[bs.len() - 1]));
    }
}

/// Run `n` fixed ticks of length `delta`.
pub open spec fn run_ticks_spec(v: WorldView, delta: u64, n: nat) -> WorldView
    decreases n,
{
    if n == 0 {
        v
    } else {
        run_ticks_spec(step_tick_spec(v, delta), delta, (n - 1) as nat)
    }
}

/// One host frame: the accumulator drains into fixed ticks, then the
/// frame-rate systems run once with the real elapsed time: selection,
/// orders, beam expiry, pylons.
pub open spec fn advance_spec(v: WorldView, elapsed: u64, cmd: CommandBatch) -> WorldView {
    let acc = v.acc_ms + elapsed;
    let delta = v.params.fixed_delta_ms as int;
    let nticks = acc / delta;
    let v1 = run_ticks_spec(v, v.params.fixed_delta_ms, nticks as nat);
    let sel2 = selection_step_spec(v1.selection, v1.units, v.control.local_player, cmd);
    let us2 = orders_step_spec(v1.units, sel2.selected, cmd);
    WorldView {
        units: us2,
        selection: sel2,
        beams: expire_beams_spec(v1.beams, elapsed),
        pylons: animate_pylons_spec(v1.pylons, v.board.board_size as int, elapsed as int),
        acc_ms: (acc % delta) as u64,
        ..v1
    }
}

/// Determinism: the simulation's behaviour is a function of its inputs. Two
/// worlds with equal state, advanced by the same frame time and the same
/// commands, are equal again, so runs with equal `(seed, board, command log,
/// tick schedule)` coincide at every frame boundary; `World::build` and
/// `World::advance` pin the executable code to these functions.
pub proof fn lemma_advance_deterministic(
    v1: WorldView,
    v2: WorldView,
    elapsed: u64,
    cmd1: CommandBatch,
    cmd2: CommandBatch,
)
    requires
        v1 == v2,
        cmd1 == cmd2,
    ensures
        advance_spec(v1, elapsed, cmd1) == advance_spec(v2, elapsed, cmd2),
{
}

/// A whole run: one frame per entry of the schedule, each with its elapsed
/// time and its commands.
pub open spec fn run_frames_spec(v: WorldView, frames: Seq<(u64, CommandBatch)>) -> WorldView
    decreases frames.len(),
{
    if frames.len() == 0 {
        v
    } else {
        run_frames_spec(
            advance_spec(v, frames[0].0, frames[0].1),
            frames.subrange(1, frames.len() as int),
        )
    }
}

/// Determinism over a whole run: two worlds built from the same seed, board
/// and control settings and driven by the same frame schedule and command
/// log end in the same state, frame for frame. `World::build` and
/// `World::advance` pin the executable code to `build_view`, `advance_spec`
/// and hence `run_frames_spec`.
pub proof fn lemma_run_deterministic(
    params: SimulationParams,
    board: BoardSettings,
    control: ControlSettings,
    frames1: Seq<(u64, CommandBatch)>,
    frames2: Seq<(u64, CommandBatch)>,
)
    requires
        frames1 == frames2,
    ensures
        run_frames_spec(build_view(params, board, control), frames1) == run_frames_spec(
            build_view(params, board, control),
            frames2,
        ),
{
}

/// Health bounds: in every well-formed world, every unit's health lies
/// between zero and its maximum; the methods below preserve well-formedness,
/// so this holds at every tick boundary.
pub proof fn lemma_health_bounds(v: WorldView, i: int)
    requires
        world_wf(v),
        0 <= i < v.units.len(),
    ensures
        0 <= v.units[i].health <= v.units[i].max_health,
{
    assert(crate::units::unit_wf(v.units[i]));
}

/// Which error, if any, a configuration is rejected with; the checks run in
/// this order.
pub open spec fn config_error_spec(params: SimulationParams, board: BoardSettings) -> Option<
    ConfigError,
> {
    if !(MIN_PLAYERS <= board.player_count <= MAX_PLAYERS) {
        Some(ConfigError::BadPlayerCount)
    } else if !(1 <= board.spawn_interval_ms <= MAX_SPAWN_INTERVAL_MS) {
        Some(ConfigError::BadSpawnInterval)
    } else if !(1 <= params.fixed_delta_ms <= MAX_STEP_MS) {
        Some(ConfigError::BadFixedDelta)
    } else if !(1 <= board.board_size <= COORD_LIMIT) {
        Some(ConfigError::BadBoardSize)
    } else {
        None
    }
}

/// Drop expired beams and age the rest by `dt`.
pub fn update_beam_effects(beams: &mut Vec<Beam>, dt_ms: u64)
    requires
        beams_wf(old(beams)@),
        1 <= dt_ms,
    ensures
        final(beams)@ == expire_beams_spec(old(beams)@, dt_ms),
        beams_wf(final(beams)@),
{
    let ghost bs0 = beams@;
    let n = beams.len();
    let mut out: Vec<Beam> = Vec::new();
    let mut k: usize = 0;
    while k < n
        invariant
            0 <= k <= n,
            n == beams@.len(),
            beams@ == bs0,
            out@ == expire_beams_spec(bs0.take(k as int), dt_ms),
        decreases n - k,
    {
        let b = beams[k];
        proof {
            assert(bs0.take(k as int + 1).drop_last() =~= bs0.take(k as int));
            assert(bs0.take(k as int + 1).last() == bs0[k as int]);
        }
        if b.remaining_ms > dt_ms {
            out.push(Beam { remaining_ms: b.remaining_ms - dt_ms, ..b });
        }
        k = k + 1;
    }
    proof {
        assert(bs0.take(n as int) =~= bs0);
        assert(beams_wf(expire_beams_spec(bs0, dt_ms))) by {
            assert forall|i: int|
                0 <= i < expire_beams_spec(bs0, dt_ms).len() implies crate::combat::beam_wf(
                #[trigger] expire_beams_spec(bs0, dt_ms)[i],
            ) by {
                lemma_beam_expiry(bs0, dt_ms, i);
                lemma_beam_expiry_thickness(bs0, dt_ms, i);
            }
        }
    }
    *beams = out;
}

/// Aged beams keep their thickness.
pub proof fn lemma_beam_expiry_thickness(bs: Seq<Beam>, dt: u64, k: int)
    requires
        beams_wf(bs),
        0 <= k < expire_beams_spec(bs, dt).len(),
    ensures
        expire_beams_spec(bs, dt)[k].thickness >= 1,
    decreases bs.len(),
{
    if bs.len() > 0 {
        let rest = expire_beams_spec(bs.drop_last(), dt);
        assert(beams_wf(bs.drop_last())) by {
            assert forall|i: int| 0 <= i < bs.drop_last().len() implies crate::combat::beam_wf(
                #[trigger] bs.drop_last()[i],
            ) by {
                assert(bs.drop_last()[i] == bs[i]);
            }
        }
        if k < rest.len() {
            lemma_beam_expiry_thickness(bs.drop_last(), dt, k);
        } else {
            assert(crate::combat::beam_wf(bs[bs.len() - 1]));
        }
    }
}

/// Advance the spawn timers by one tick and spawn a unit for each that
/// finished, in registry order, drawing the position jitter from the stream.
#[verifier::rlimit(100)]
fn tick_spawn_timers(
    units: &mut Vec<Unit>,
    timers: &mut Vec<u64>,
    rng: &mut SimulationRng,
    next_id_in: u64,
    registry: &Vec<SpawnEntry>,
    interval_ms: u64,
    dt_ms: u64,
) -> (next_id_out: u64)
    requires
        units_wf(old(units)@),
        ids_below(old(units)@, next_id_in),
        old(timers)@.len() == registry@.len(),
        registry@.len() <= MAX_PLAYERS,
        forall|i: int| 0 <= i < old(timers)@.len() ==> (#[trigger] old(timers)@[i]) < interval_ms,
        1 <= interval_ms <= MAX_SPAWN_INTERVAL_MS,
        1 <= dt_ms <= MAX_STEP_MS,
        forall|e: int|
            0 <= e < registry@.len() ==> (#[trigger] registry@[e]).player.0 < MAX_PLAYERS && in_box(
                registry@[e].position,
                COORD_LIMIT as int,
            ),
    ensures
        ({
            let sp = spawn_from_spec(
                old(units)@,
                Seq::empty(),
                registry@,
                old(timers)@,
                *old(rng),
                next_id_in,
                interval_ms,
                dt_ms,
                0,
            );
            &&& final(units)@ == old(units)@ + sp.0
            &&& final(timers)@ == sp.1
            &&& *final(rng) == sp.2
            &&& next_id_out == sp.3
        }),
        units_wf(final(units)@),
        ids_below(final(units)@, next_id_out),
        final(timers)@.len() == registry@.len(),
        forall|i: int| 0 <= i < final(timers)@.len() ==> (#[trigger] final(timers)@[i]) < interval_ms,
{
    let ghost us0 = old(units)@;
    let ghost total = spawn_from_spec(
        us0,
        Seq::empty(),
        registry@,
        old(timers)@,
        *old(rng),
        next_id_in,
        interval_ms,
        dt_ms,
        0,
    );
    let n = registry.len();
    let mut pending: Vec<Unit> = Vec::new();
    let mut nid: u64 = next_id_in;
    let mut idx: usize = 0;
    while idx < n
        invariant
            0 <= idx <= n,
            n == registry@.len() == timers@.len(),
            n <= MAX_PLAYERS,
            units@ == us0,
            units_wf(us0),
            ids_below(us0, next_id_in),
            1 <= interval_ms <= MAX_SPAWN_INTERVAL_MS,
            1 <= dt_ms <= MAX_STEP_MS,
            forall|e: int|
                0 <= e < registry@.len() ==> (#[trigger] registry@[e]).player.0 < MAX_PLAYERS
                    && in_box(registry@[e].position, COORD_LIMIT as int),
            pending@.len() <= idx,
            us0.len() + pending@.len() <= UNIT_CAP,
            next_id_in <= nid,
            nid <= next_id_in + idx,
            forall|k: int|
                0 <= k < pending@.len() ==> next_id_in <= (#[trigger] pending@[k].id) < nid,
            forall|k1: int, k2: int|
                0 <= k1 < k2 < pending@.len() ==> #[trigger] pending@[k1].id != #[trigger] pending@[k2].id,
            forall|k: int| 0 <= k < pending@.len() ==> crate::units::unit_wf(#[trigger] pending@[k]),
            forall|i: int| 0 <= i < idx ==> (#[trigger] timers@[i]) < interval_ms,
            forall|i: int| idx <= i < n ==> timers@[i] == old(timers)@[i],
            forall|i: int| 0 <= i < n ==> (#[trigger] old(timers)@[i]) < interval_ms,
            spawn_from_spec(
                us0,
                pending@,
                registry@,
                timers@,
                *rng,
                nid,
                interval_ms,
                dt_ms,
                idx as int,
            ) == total,
        decreases n - idx,
    {
        let e: u64 = timers[idx] + dt_ms;
        if e >= interval_ms {
            timers.set(idx, e % interval_ms);
            if units.len() + pending.len() < UNIT_CAP && nid < u64::MAX {
                let jx = rng.gen_fx(-SPAWN_JITTER, SPAWN_JITTER);
                let jy = rng.gen_fx(-SPAWN_JITTER, SPAWN_JITTER);
                let entry = registry[idx];
                let rally = match average_unit_position(units, entry.player) {
                    Some(c) => c,
                    None => entry.position,
                };
                let u = spawn_unit(
                    entry.player,
                    V2 { x: entry.position.x + jx, y: entry.position.y + jy },
                    rally,
                    nid,
                );
                pending.push(u);
                nid = nid + 1;
            }
        } else {
            timers.set(idx, e);
        }
        idx = idx + 1;
    }
    // Append the spawned units after the whole pass, so every centroid above
    // read the state the tick began with.
    let m = pending.len();
    let mut k: usize = 0;
    while k < m
        invariant
            0 <= k <= m,
            m == pending@.len(),
            units@ == us0 + pending@.subrange(0, k as int),
        decreases m - k,
    {
        let u = pending[k];
        units.push(u);
        proof {
            assert(units@ =~= us0 + pending@.subrange(0, k as int + 1));
        }
        k = k + 1;
    }
    proof {
        assert(pending@.subrange(0, m as int) =~= pending@);
        assert(units@ == us0 + pending@);
        assert(pending@ == total.0 && timers@ == total.1 && *rng == total.2 && nid == total.3);
        lemma_spawn_units_wf(us0, pending@, next_id_in, nid);
    }
    nid
}

/// Appending freshly numbered units keeps the store well-formed.
proof fn lemma_spawn_units_wf(us0: Seq<Unit>, pending: Seq<Unit>, lo: u64, hi: u64)
    requires
        units_wf(us0),
        ids_below(us0, lo),
        us0.len() + pending.len() <= UNIT_CAP,
        forall|k: int| 0 <= k < pending.len() ==> lo <= (#[trigger] pending[k].id) < hi,
        forall|k1: int, k2: int|
            0 <= k1 < k2 < pending.len() ==> #[trigger] pending[k1].id != #[trigger] pending[k2].id,
        forall|k: int| 0 <= k < pending.len() ==> crate::units::unit_wf(#[trigger] pending[k]),
        lo <= hi,
    ensures
        units_wf(us0 + pending),
        ids_below(us0 + pending, hi),
{
    let all = us0 + pending;
    assert forall|i: int| 0 <= i < all.len() implies crate::units::unit_wf(#[trigger] all[i]) by {
        if i < us0.len() {
            assert(all[i] == us0[i]);
        } else {
            assert(all[i] == pending[i - us0.len()]);
        }
    }
    assert forall|i: int, j: int|
        0 <= i < j < all.len() implies #[trigger] all[i].id != #[trigger] all[j].id by {
        if j < us0.len() {
        } else if i < us0.len() {
            assert(all[i].id < lo);
            assert(all[j] == pending[j - us0.len()]);
        } else {
            assert(all[i] == pending[i - us0.len()]);
            assert(all[j] == pending[j - us0.len()]);
        }
    }
    assert forall|i: int| 0 <= i < all.len() implies (#[trigger] all[i].id) < hi by {
        if i < us0.len() {
            assert(all[i] == us0[i]);
        } else {
            assert(all[i] == pending[i - us0.len()]);
        }
    }
}

impl World {
    /// Construct a world from a plain parameter record: the spawn registry on
    /// its circle, two units per player beside their anchor, and three pylons
    /// drawn from the freshly seeded stream. Exactly when the configuration
    /// is rejected, the error names the first offending field.
    pub fn build(
        params: SimulationParams,
        board: BoardSettings,
        control: ControlSettings,
    ) -> (r: Result<World, ConfigError>)
        ensures
            r is Ok <==> world_config_ok(params, board),
            r is Err ==> Some(r->Err_0) == config_error_spec(params, board),
            r is Ok ==> (r->Ok_0)@ == build_view(params, board, control),
            r is Ok ==> world_wf((r->Ok_0)@),
            r is Ok ==> (r->Ok_0)@.registry.len() == board.player_count,
            r is Ok ==> (r->Ok_0)@.units.len() == 2 * board.player_count,
    {
        if !(MIN_PLAYERS <= board.player_count && board.player_count <= MAX_PLAYERS) {
            return Err(ConfigError::BadPlayerCount);
        }
        if !(1 <= board.spawn_interval_ms && board.spawn_interval_ms <= MAX_SPAWN_INTERVAL_MS) {
            return Err(ConfigError::BadSpawnInterval);
        }
        if !(1 <= params.fixed_delta_ms && params.fixed_delta_ms <= MAX_STEP_MS) {
            return Err(ConfigError::BadFixedDelta);
        }
        if !(1 <= board.board_size && board.board_size <= COORD_LIMIT) {
            return Err(ConfigError::BadBoardSize);
        }
        let registry = setup_board(&board);
        proof {
            crate::board::lemma_registry_in_box(board);
        }
        let n = registry.len();
        let mut units: Vec<Unit> = Vec::new();
        let mut timers: Vec<u64> = Vec::new();
        let mut id: u64 = 0;
        let mut i: usize = 0;
        while i < n
            invariant
                0 <= i <= n,
                n == registry@.len() == board.player_count,
                registry@ == registry_spec(board),
                MIN_PLAYERS <= board.player_count <= MAX_PLAYERS,
                1 <= board.board_size <= COORD_LIMIT,
                forall|e: int|
                    0 <= e < registry@.len() ==> in_box(
                        (#[trigger] registry@[e]).position,
                        COORD_LIMIT as int,
                    ),
                id == 2 * i,
                units@.len() == 2 * i,
                timers@.len() == i,
                forall|k: int| 0 <= k < timers@.len() ==> timers@[k] == 0u64,
                forall|k: int|
                    0 <= k < units@.len() ==> units@[k] == #[trigger] initial_units_spec(board)[k],
                forall|k: int| 0 <= k < units@.len() ==> crate::units::unit_wf(#[trigger] units@[k]),
                forall|k: int| 0 <= k < units@.len() ==> (#[trigger] units@[k].id) == k,
            decreases n - i,
        {
            let e = registry[i];
            proof {
                assert(registry@[i as int].player == crate::board::PlayerId(i));
                assert(initial_units_spec(board).len() == 2 * n);
            }
            let u1 = spawn_unit(
                e.player,
                V2 { x: e.position.x + INITIAL_UNIT_OFFSET, y: e.position.y },
                e.position,
                id,
            );
            proof {
                assert((2 * i as int) / 2 == i as int && (2 * i as int) % 2 == 0);
                assert(u1 == initial_units_spec(board)[2 * i as int]);
            }
            units.push(u1);
            let u2 = spawn_unit(
                e.player,
                V2 { x: e.position.x - INITIAL_UNIT_OFFSET, y: e.position.y },
                e.position,
                id + 1,
            );
            proof {
                assert((2 * i as int + 1) / 2 == i as int && (2 * i as int + 1) % 2 == 1);
                assert(u2 == initial_units_spec(board)[2 * i as int + 1]);
            }
            units.push(u2);
            timers.push(0);
            id = id + 2;
            i = i + 1;
        }
        let mut rng = SimulationRng::new(params.seed);
        let pylons = spawn_pylons(&mut rng, board.board_size);
        let selection = SelectionState::default();
        let w = World {
            params,
            board,
            control,
            rng,
            registry,
            spawn_elapsed: timers,
            units,
            next_id: id,
            pylons,
            beams: Vec::new(),
            selection,
            acc_ms: 0,
            tick: 0,
        };
        proof {
            let bv = build_view(params, board, control);
            assert(w@.units =~= bv.units);
            assert(w@.spawn_elapsed =~= bv.spawn_elapsed);
            assert(w@.beams =~= bv.beams);
            assert(w@.selection.selected =~= bv.selection.selected);
            assert(w@.selection.prev_selected =~= bv.selection.prev_selected);
            assert(w@.selection == bv.selection);
            assert(w@ == bv);
            assert(world_wf(w@)) by {
                assert(units_wf(w@.units));
                assert(ids_below(w@.units, w@.next_id));
                assert(beams_wf(w@.beams));
            }
        }
        Ok(w)
    }

    /// One fixed simulation tick of `dt_ms` milliseconds: spawning, movement,
    /// separation, support and combat, in that order, then the selection
    /// drops the units that died.
    pub fn step_tick(&mut self, dt_ms: u64)
        requires
            world_wf_core(old(self)@),
            1 <= dt_ms <= MAX_STEP_MS,
        ensures
            final(self)@ == step_tick_spec(old(self)@, dt_ms),
            world_wf_core(final(self)@),
            final(self)@.acc_ms == old(self)@.acc_ms,
    {
        let ghost v0 = old(self)@;
        proof {
            crate::board::lemma_registry_in_box(self.board);
            assert forall|e: int| 0 <= e < self.registry@.len() implies (#[trigger] self.registry@[e]).player.0
                < MAX_PLAYERS && in_box(self.registry@[e].position, COORD_LIMIT as int) by {
                assert(self.registry@[e] == registry_spec(self.board)[e]);
            }
        }
        let nid = tick_spawn_timers(
            &mut self.units,
            &mut self.spawn_elapsed,
            &mut self.rng,
            self.next_id,
            &self.registry,
            self.board.spawn_interval_ms,
            dt_ms,
        );
        self.next_id = nid;
        let ghost us1 = self.units@;
        move_units(&mut self.units, dt_ms);
        let ghost us2 = self.units@;
        update_unit_rally_targets(&mut self.units);
        let ghost us3 = self.units@;
        proof {
            assert(ids_below(us2, nid)) by {
                assert forall|k: int| 0 <= k < us2.len() implies (#[trigger] us2[k].id) < nid by {
                    assert(us2[k] == crate::units::moved_unit_spec(us1[k], dt_ms as int));
                }
            }
            assert(ids_below(us3, nid)) by {
                assert forall|k: int| 0 <= k < us3.len() implies (#[trigger] us3[k].id) < nid by {
                    assert(us3[k] == crate::units::separated_unit_spec(us2, k));
                }
            }
        }
        let np = self.pylons.len();
        let mut pp: Vec<V2> = Vec::new();
        let mut k: usize = 0;
        while k < np
            invariant
                0 <= k <= np,
                np == self.pylons@.len(),
                pylons_wf(self.pylons@),
                pp@.len() == k,
                forall|k2: int| 0 <= k2 < k ==> pp@[k2] == self.pylons@[k2].pos,
            decreases np - k,
        {
            let p = self.pylons[k];
            proof {
                assert(crate::pylons::pylon_wf(self.pylons@[k as int]));
            }
            pp.push(p.pos);
            k = k + 1;
        }
        proof {
            assert(pp@ =~= pylon_positions_spec(self.pylons@));
            assert forall|k2: int| 0 <= k2 < pp@.len() implies in_box(
                #[trigger] pp@[k2],
                COORD_LIMIT as int,
            ) by {
                assert(crate::pylons::pylon_wf(self.pylons@[k2]));
            }
        }
        unit_combat_system(&mut self.units, &self.registry, &pp, &mut self.beams, dt_ms);
        proof {
            assert(ids_below(self.units@, nid)) by {
                assert forall|k2: int| 0 <= k2 < self.units@.len() implies (#[trigger] self.units@[k2].id)
                    < nid by {
                    let j = choose|j: int| 0 <= j < us3.len() && self.units@[k2].id == us3[j].id;
                    assert(us3[j].id < nid);
                }
            }
        }
        prune_selection(&mut self.selection.selected, &self.units);
        self.tick = self.tick.wrapping_add(1);
        proof {
            reveal(step_tick_spec);
            let sv = step_tick_spec(v0, dt_ms);
            assert(self@.units == sv.units);
            assert(self@.beams == sv.beams);
            assert(self@.selection == sv.selection);
            assert(self@ == sv);
        }
    }

    /// One host frame: `elapsed_ms` drains the fixed-step accumulator into
    /// zero or more ticks, then the command-rate systems run once with the
    /// real elapsed time: selection, move orders, beam expiry and pylons.
    pub fn advance(&mut self, elapsed_ms: u64, cmd: &CommandBatch)
        requires
            world_wf(old(self)@),
            1 <= elapsed_ms <= MAX_STEP_MS,
        ensures
            final(self)@ == advance_spec(old(self)@, elapsed_ms, *cmd),
            world_wf(final(self)@),
    {
        let ghost v0 = old(self)@;
        let delta = self.params.fixed_delta_ms;
        let acc0: u64 = self.acc_ms + elapsed_ms;
        self.acc_ms = acc0;
        let ghost mut done: nat = 0nat;
        while self.acc_ms >= delta
            invariant
                delta == v0.params.fixed_delta_ms,
                1 <= delta <= MAX_STEP_MS,
                acc0 == v0.acc_ms + elapsed_ms,
                acc0 <= 2 * MAX_STEP_MS,
                self.acc_ms + done * delta == acc0,
                self@ == (WorldView { acc_ms: self.acc_ms, ..run_ticks_spec(v0, delta, done) }),
                world_wf_core(self@),
                self@.params == v0.params,
                self@.board == v0.board,
                self@.control == v0.control,
            decreases self.acc_ms,
        {
            self.acc_ms = self.acc_ms - delta;
            let ghost pre = self@;
            self.step_tick(delta);
            proof {
                done = done + 1;
                reveal(step_tick_spec);
                assert(step_tick_spec(
                    WorldView { acc_ms: pre.acc_ms, ..run_ticks_spec(v0, delta, (done - 1) as nat) },
                    delta,
                ) == (WorldView {
                    acc_ms: pre.acc_ms,
                    ..step_tick_spec(run_ticks_spec(v0, delta, (done - 1) as nat), delta)
                }));
                assert(run_ticks_spec(v0, delta, done) == step_tick_spec(
                    run_ticks_spec(v0, delta, (done - 1) as nat),
                    delta,
                )) by {
                    lemma_run_ticks_snoc(v0, delta, done);
                }
                assert((done - 1) * delta + delta == done * delta) by (nonlinear_arith);
            }
        }
        proof {
            assert(self.acc_ms < delta);
            assert(acc0 == done * delta + self.acc_ms);
            assert(done == acc0 as int / delta as int && self.acc_ms == acc0 as int % delta as int)
                by (nonlinear_arith)
                requires
                    1 <= delta,
                    0 <= self.acc_ms < delta,
                    acc0 == done * delta + self.acc_ms,
                    done >= 0,
            ;
        }
        let ghost v1 = run_ticks_spec(v0, delta, done);
        proof {
            assert(self@ == (WorldView { acc_ms: self.acc_ms, ..v1 }));
        }
        handle_selection_input(
            &mut self.selection,
            &self.units,
            self.control.local_player,
            cmd,
        );
        issue_move_orders(&mut self.units, &self.selection, cmd);
        update_beam_effects(&mut self.beams, elapsed_ms);
        animate_pylons(&mut self.pylons, self.board.board_size, elapsed_ms);
        proof {
            let sv = advance_spec(v0, elapsed_ms, *cmd);
            assert(((v0.acc_ms + elapsed_ms) / (v0.params.fixed_delta_ms as int)) as nat == done);
            assert(self@.selection == sv.selection);
            assert(self@.units == sv.units);
            assert(self@.beams == sv.beams);
            assert(self@.pylons == sv.pylons);
            assert(self@.acc_ms == sv.acc_ms);
            assert(self@ == sv);
        }
    }

    /// The live units, in store order.
    pub fn units(&self) -> (r: &Vec<Unit>)
        ensures
            r@ == self@.units,
    {
        &self.units
    }

    /// The pylons, in creation order.
    pub fn pylons(&self) -> (r: &Vec<Pylon>)
        ensures
            r@ == self@.pylons,
    {
        &self.pylons
    }

    /// The live visual beams.
    pub fn beams(&self) -> (r: &Vec<Beam>)
        ensures
            r@ == self@.beams,
    {
        &self.beams
    }

    /// The spawn registry.
    pub fn spawn_registry(&self) -> (r: &Vec<SpawnEntry>)
        ensures
            r@ == self@.registry,
    {
        &self.registry
    }

    /// The currently selected unit ids.
    pub fn selected_units(&self) -> (r: &Vec<u64>)
        ensures
            r@ == self@.selection.selected,
    {
        &self.selection.selected
    }

    /// How many ticks have run.
    pub fn tick_count(&self) -> (r: u64)
        ensures
            r == self@.tick,
    {
        self.tick
    }
}

/// Unrolling `run_ticks_spec` from the back.
pub proof fn lemma_run_ticks_snoc(v: WorldView, delta: u64, n: nat)
    requires
        n >= 1,
    ensures
        run_ticks_spec(v, delta, n) == step_tick_spec(
            run_ticks_spec(v, delta, (n - 1) as nat),
            delta,
        ),
    decreases n,
{
    assert(run_ticks_spec(v, delta, n) == run_ticks_spec(step_tick_spec(v, delta), delta, (n - 1) as nat));
    if n == 1 {
        assert(run_ticks_spec(step_tick_spec(v, delta), delta, 0) == step_tick_spec(v, delta));
        assert(run_ticks_spec(v, delta, 0) == v);
    } else {
        lemma_run_ticks_snoc(step_tick_spec(v, delta), delta, (n - 1) as nat);
    }
}

} // verus!
