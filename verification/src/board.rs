//! Board settings, player identities and the per-player spawn registry.

use vstd::prelude::*;

use crate::fx::{dtz, div_tz, in_box, V2, COORD_LIMIT};
use crate::trig::{cos_turn, cos_turn_spec, sin_turn, sin_turn_spec, TURN};

verus! {

/// Fewest players a board can host.
pub const MIN_PLAYERS: usize = 2;

/// Most players a board can host.
pub const MAX_PLAYERS: usize = 8;

/// Default RNG seed.
pub const DEFAULT_SEED: u64 = 42;

/// Default simulation tick length: a thirtieth of a second, at millisecond
/// resolution.
pub const DEFAULT_FIXED_DELTA_MS: u64 = 33;

/// Default board extent (fixed-point board units).
pub const DEFAULT_BOARD_SIZE: i64 = 1_600_000;

pub const DEFAULT_PLAYER_COUNT: usize = 4;

/// Default per-player spawn period in milliseconds.
pub const DEFAULT_SPAWN_INTERVAL_MS: u64 = 1000;

/// Longest tick a caller may ask for in one step: ten minutes.
pub const MAX_STEP_MS: u64 = 600_000;

/// A player identity; two players are equal exactly when the ids match.
#[derive(Clone, Copy, Debug, PartialEq, Eq, Hash, Structural)]
pub struct PlayerId(pub usize);

/// Parameters of the deterministic fixed-step schedule.
#[derive(Clone, Copy, Debug, PartialEq, Eq, Structural)]
pub struct SimulationParams {
    pub seed: u64,
    pub fixed_delta_ms: u64,
}

impl SimulationParams {
    /// Default schedule with a chosen seed.
    pub fn from_seed(seed: u64) -> (r: SimulationParams)
        ensures
            r.seed == seed,
            r.fixed_delta_ms == DEFAULT_FIXED_DELTA_MS,
    {
        SimulationParams { seed, fixed_delta_ms: DEFAULT_FIXED_DELTA_MS }
    }
}

impl Default for SimulationParams {
    fn default() -> (r: SimulationParams)
        ensures
            r.seed == DEFAULT_SEED,
            r.fixed_delta_ms == DEFAULT_FIXED_DELTA_MS,
    {
        SimulationParams { seed: DEFAULT_SEED, fixed_delta_ms: DEFAULT_FIXED_DELTA_MS }
    }
}

/// Size and population of the board.
#[derive(Clone, Copy, Debug, PartialEq, Eq, Structural)]
pub struct BoardSettings {
    /// Square board extent, fixed-point.
    pub board_size: i64,
    pub player_count: usize,
    /// Per-player spawn period in milliseconds.
    pub spawn_interval_ms: u64,
}

impl Default for BoardSettings {
    fn default() -> (r: BoardSettings)
        ensures
            r.board_size == DEFAULT_BOARD_SIZE,
            r.player_count == DEFAULT_PLAYER_COUNT,
            r.spawn_interval_ms == DEFAULT_SPAWN_INTERVAL_MS,
    {
        BoardSettings {
            board_size: DEFAULT_BOARD_SIZE,
            player_count: DEFAULT_PLAYER_COUNT,
            spawn_interval_ms: DEFAULT_SPAWN_INTERVAL_MS,
        }
    }
}

/// Which player the local controller commands.
#[derive(Clone, Copy, Debug, PartialEq, Eq, Structural)]
pub struct ControlSettings {
    pub local_player: PlayerId,
}

impl Default for ControlSettings {
    fn default() -> (r: ControlSettings)
        ensures
            r.local_player == PlayerId(0),
    {
        ControlSettings { local_player: PlayerId(0) }
    }
}

/// Why a world could not be constructed.
#[derive(Clone, Copy, Debug, PartialEq, Eq, Structural)]
pub enum ConfigError {
    /// `player_count` outside `MIN_PLAYERS..=MAX_PLAYERS`.
    BadPlayerCount,
    /// `spawn_interval_ms` of zero.
    BadSpawnInterval,
    /// `fixed_delta_ms` of zero or above `MAX_STEP_MS`.
    BadFixedDelta,
    /// `board_size` of zero or less, or beyond the coordinate box.
    BadBoardSize,
}

/// One immutable spawn anchor.
#[derive(Clone, Copy, Debug, PartialEq, Eq, Structural)]
pub struct SpawnEntry {
    pub player: PlayerId,
    pub position: V2,
}

/// The accepted configuration space.
pub open spec fn config_ok(params: SimulationParams, board: BoardSettings) -> bool {
    &&& MIN_PLAYERS <= board.player_count <= MAX_PLAYERS
    &&& board.spawn_interval_ms >= 1
    &&& 1 <= params.fixed_delta_ms <= MAX_STEP_MS
    &&& 1 <= board.board_size <= COORD_LIMIT
}

/// Radius of the spawn circle: 35% of the board extent.
pub open spec fn spawn_radius_spec(board_size: int) -> int {
    board_size * 35 / 100
}

/// Anchor angle of player `i` among `n`: the exact fraction `i / n` of a turn,
/// in turn units (exact because every `n` up to eight divides `TURN`).
pub open spec fn anchor_angle_spec(n: int, i: int) -> int {
    i * 5040 / n
}

/// Anchor of player `i` among `n` on a board of the given size.
pub open spec fn anchor_spec(board_size: int, n: int, i: int) -> V2 {
    let radius = spawn_radius_spec(board_size);
    let t = anchor_angle_spec(n, i);
    V2 {
        x: dtz(radius * cos_turn_spec(t), 1000) as i64,
        y: dtz(radius * sin_turn_spec(t), 1000) as i64,
    }
}

/// The whole registry: one anchor per player, in player order.
pub open spec fn registry_spec(board: BoardSettings) -> Seq<SpawnEntry> {
    Seq::new(
        board.player_count as nat,
        |i: int|
            SpawnEntry {
                player: PlayerId(i as usize),
                position: anchor_spec(board.board_size as int, board.player_count as int, i),
            },
    )
}

pub proof fn lemma_anchor_in_box(board_size: int, n: int, i: int)
    requires
        1 <= board_size <= COORD_LIMIT,
        2 <= n <= 8,
        0 <= i < n,
    ensures
        in_box(anchor_spec(board_size, n, i), COORD_LIMIT as int),
{
    let radius = spawn_radius_spec(board_size);
    assert(0 <= radius <= 350_000_000) by (nonlinear_arith)
        requires
            1 <= board_size <= 1_000_000_000,
            radius == board_size * 35 / 100,
    ;
    let t = anchor_angle_spec(n, i);
    assert(0 <= t < 5040) by (nonlinear_arith)
        requires
            2 <= n <= 8,
            0 <= i < n,
            t == i * 5040 / n,
    ;
    crate::trig::lemma_cos_turn_bounds(t);
    crate::trig::lemma_sin_turn_bounds(t);
    let c = cos_turn_spec(t);
    let s = sin_turn_spec(t);
    assert(-350_000_000_000 <= radius * c <= 350_000_000_000) by (nonlinear_arith)
        requires
            0 <= radius <= 350_000_000,
            -1000 <= c <= 1000,
    ;
    assert(-350_000_000_000 <= radius * s <= 350_000_000_000) by (nonlinear_arith)
        requires
            0 <= radius <= 350_000_000,
            -1000 <= s <= 1000,
    ;
    assert(-350_000_000 <= dtz(radius * c, 1000) <= 350_000_000) by (nonlinear_arith)
        requires
            -350_000_000_000 <= radius * c <= 350_000_000_000,
    ;
    assert(-350_000_000 <= dtz(radius * s, 1000) <= 350_000_000) by (nonlinear_arith)
        requires
            -350_000_000_000 <= radius * s <= 350_000_000_000,
    ;
}

/// Build the spawn registry: `player_count` anchors evenly around the spawn
/// circle, player `i` at the `i`-th angle.
pub fn setup_board(board: &BoardSettings) -> (r: Vec<SpawnEntry>)
    requires
        MIN_PLAYERS <= board.player_count <= MAX_PLAYERS,
        1 <= board.board_size <= COORD_LIMIT,
    ensures
        r@ == registry_spec(*board),
        r@.len() == board.player_count,
{
    let n = board.player_count;
    let radius_wide: i64 = board.board_size * 35;
    let radius: i64 = div_tz(radius_wide, 100);
    proof {
        assert(0 <= board.board_size * 35 <= 35_000_000_000) by (nonlinear_arith)
            requires
                1 <= board.board_size <= 1_000_000_000,
        ;
        assert(radius == spawn_radius_spec(board.board_size as int));
        assert(0 <= radius <= 350_000_000);
    }
    let mut entries: Vec<SpawnEntry> = Vec::new();
    let mut i: usize = 0;
    while i < n
        invariant
            0 <= i <= n,
            2 <= n <= 8,
            1 <= board.board_size <= COORD_LIMIT,
            n == board.player_count,
            radius == spawn_radius_spec(board.board_size as int),
            0 <= radius <= 350_000_000,
            entries@.len() == i,
            forall|k: int| 0 <= k < i ==> entries@[k] == #[trigger] registry_spec(*board)[k],
        decreases n - i,
    {
        let t: u32 = ((i as u32) * TURN) / (n as u32);
        proof {
            assert(0 <= (i as int) * 5040 / (n as int) < 5040) by (nonlinear_arith)
                requires
                    2 <= n <= 8,
                    0 <= i < n,
            ;
            assert(t == anchor_angle_spec(n as int, i as int));
        }
        let c = cos_turn(t);
        let s = sin_turn(t);
        proof {
            assert(-350_000_000_000 <= radius * c <= 350_000_000_000) by (nonlinear_arith)
                requires
                    0 <= radius <= 350_000_000,
                    -1000 <= c <= 1000,
            ;
            assert(-350_000_000_000 <= radius * s <= 350_000_000_000) by (nonlinear_arith)
                requires
                    0 <= radius <= 350_000_000,
                    -1000 <= s <= 1000,
            ;
        }
        let px = div_tz(radius * c, 1000);
        let py = div_tz(radius * s, 1000);
        let entry = SpawnEntry { player: PlayerId(i), position: V2 { x: px, y: py } };
        proof {
            assert(entry == registry_spec(*board)[i as int]);
        }
        entries.push(entry);
        i = i + 1;
    }
    proof {
        assert(entries@ =~= registry_spec(*board));
    }
    entries
}

/// Every registry position sits inside the coordinate box.
pub proof fn lemma_registry_in_box(board: BoardSettings)
    requires
        MIN_PLAYERS <= board.player_count <= MAX_PLAYERS,
        1 <= board.board_size <= COORD_LIMIT,
    ensures
        forall|i: int|
            0 <= i < registry_spec(board).len() ==> in_box(
                #[trigger] registry_spec(board)[i].position,
                COORD_LIMIT as int,
            ),
{
    assert forall|i: int| 0 <= i < registry_spec(board).len() implies in_box(
        #[trigger] registry_spec(board)[i].position,
        COORD_LIMIT as int,
    ) by {
        lemma_anchor_in_box(board.board_size as int, board.player_count as int, i);
    }
}

} // verus!
