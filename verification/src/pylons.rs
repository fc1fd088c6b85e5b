//! Pylons: mutually gravitating mobile field sources that bounce at the
//! board limits.

use vstd::prelude::*;

use crate::fx::{
    clamp_i64, clamp_len, clamp_len_spec, clamp_spec, dist_sq, dist_sq_spec, div_tz, dtz, in_box,
    rescale, rescale_spec, sq, vlen, vlen_spec, V2, COORD_LIMIT,
};
use crate::board::MAX_STEP_MS;
use crate::rng::{sm_in_range, sm_next_state, SimulationRng};
use crate::trig::{cos_turn, cos_turn_spec, sin_turn, sin_turn_spec};

verus! {

/// How many pylons a world holds, for its whole life.
pub const PYLON_COUNT: usize = 3;

/// Gravitational coupling between pylons.
pub const PYLON_GRAVITY: i64 = 18_000;

/// Hard cap on pylon velocity components (fixed-point per second).
pub const PYLON_MAX_SPEED: i64 = 240_000;

/// Softening floor of the squared distance (whole board units squared) in the
/// gravity law; deliberately asymmetric with the other force terms.
pub const PYLON_DIST_FLOOR: i64 = 4_000;

/// A mobile field source.
#[derive(Clone, Copy, Debug, PartialEq, Eq, Structural)]
pub struct Pylon {
    pub pos: V2,
    pub velocity: V2,
    /// Fixed-point mass in `[1, 2]`.
    pub mass: i64,
}

pub open spec fn pylon_wf(p: Pylon) -> bool {
    &&& in_box(p.pos, COORD_LIMIT as int)
    &&& in_box(p.velocity, PYLON_MAX_SPEED as int)
    &&& 1_000 <= p.mass <= 2_000
}

pub open spec fn pylons_wf(ps: Seq<Pylon>) -> bool {
    &&& ps.len() == PYLON_COUNT
    &&& forall|i: int| 0 <= i < ps.len() ==> pylon_wf(#[trigger] ps[i])
}

/// The stream state after one draw.
pub open spec fn rng_adv(rng: SimulationRng) -> SimulationRng {
    SimulationRng { seed: rng.seed, state: sm_next_state(rng.state) }
}

/// One pylon drawn from the stream: radius, angle, speed, mass, strictly in
/// that order. It starts on a circle between 15% and 30% of the board size,
/// moving tangentially.
pub open spec fn spawn_pylon_spec(rng: SimulationRng, board: int) -> (Pylon, SimulationRng) {
    let r = sm_in_range(rng.state, board * 15 / 100, board * 30 / 100);
    let rng1 = rng_adv(rng);
    let theta = sm_in_range(rng1.state, 0, 5039);
    let rng2 = rng_adv(rng1);
    let s = sm_in_range(rng2.state, 20_000, 60_000);
    let rng3 = rng_adv(rng2);
    let m = sm_in_range(rng3.state, 1_000, 2_000);
    let rng4 = rng_adv(rng3);
    let c = cos_turn_spec(theta);
    let sn = sin_turn_spec(theta);
    (
        Pylon {
            pos: V2 { x: dtz(c * r, 1000) as i64, y: dtz(sn * r, 1000) as i64 },
            velocity: V2 { x: dtz(-sn * s, 1000) as i64, y: dtz(c * s, 1000) as i64 },
            mass: m as i64,
        },
        rng4,
    )
}

/// The pylons spawned from index `k` onward, threading the stream.
pub open spec fn spawn_pylons_from(rng: SimulationRng, board: int, k: int) -> (
    Seq<Pylon>,
    SimulationRng,
)
    decreases PYLON_COUNT - k,
{
    if k < 0 || k >= PYLON_COUNT {
        (Seq::empty(), rng)
    } else {
        let first = spawn_pylon_spec(rng, board);
        let rest = spawn_pylons_from(first.1, board, k + 1);
        (seq![first.0] + rest.0, rest.1)
    }
}

pub open spec fn spawn_pylons_spec(rng: SimulationRng, board: int) -> (Seq<Pylon>, SimulationRng) {
    spawn_pylons_from(rng, board, 0)
}

pub proof fn lemma_spawn_pylon_wf(rng: SimulationRng, board: int)
    requires
        1 <= board <= COORD_LIMIT,
    ensures
        pylon_wf(spawn_pylon_spec(rng, board).0),
{
    let r = sm_in_range(rng.state, board * 15 / 100, board * 30 / 100);
    let rng1 = rng_adv(rng);
    let theta = sm_in_range(rng1.state, 0, 5039);
    assert(0 <= board * 15 / 100 <= board * 30 / 100 <= 300_000_000) by (nonlinear_arith)
        requires
            1 <= board <= 1_000_000_000,
    ;
    assert(0 <= r <= 300_000_000) by (nonlinear_arith)
        requires
            0 <= board * 15 / 100 <= board * 30 / 100 <= 300_000_000,
            r == board * 15 / 100 + (crate::rng::sm_output(rng.state) as int) % (board * 30 / 100
                - board * 15 / 100 + 1),
    ;
    assert(0 <= theta <= 5039);
    crate::trig::lemma_cos_turn_bounds(theta);
    crate::trig::lemma_sin_turn_bounds(theta);
    let c = cos_turn_spec(theta);
    let sn = sin_turn_spec(theta);
    assert(-300_000_000_000 <= c * r <= 300_000_000_000) by (nonlinear_arith)
        requires
            -1000 <= c <= 1000,
            0 <= r <= 300_000_000,
    ;
    assert(-300_000_000_000 <= sn * r <= 300_000_000_000) by (nonlinear_arith)
        requires
            -1000 <= sn <= 1000,
            0 <= r <= 300_000_000,
    ;
    assert(-300_000_000 <= dtz(c * r, 1000) <= 300_000_000) by (nonlinear_arith)
        requires
            -300_000_000_000 <= c * r <= 300_000_000_000,
    ;
    assert(-300_000_000 <= dtz(sn * r, 1000) <= 300_000_000) by (nonlinear_arith)
        requires
            -300_000_000_000 <= sn * r <= 300_000_000_000,
    ;
    let rng2 = rng_adv(rng1);
    let s = sm_in_range(rng2.state, 20_000, 60_000);
    assert(20_000 <= s <= 60_000);
    assert(-60_000_000 <= -sn * s <= 60_000_000 && -60_000_000 <= c * s <= 60_000_000)
        by (nonlinear_arith)
        requires
            -1000 <= c <= 1000,
            -1000 <= sn <= 1000,
            20_000 <= s <= 60_000,
    ;
    assert(-60_000 <= dtz(-sn * s, 1000) <= 60_000) by (nonlinear_arith)
        requires
            -60_000_000 <= -sn * s <= 60_000_000,
    ;
    assert(-60_000 <= dtz(c * s, 1000) <= 60_000) by (nonlinear_arith)
        requires
            -60_000_000 <= c * s <= 60_000_000,
    ;
}

/// Draw `PYLON_COUNT` pylons, in index order, four draws each.
pub fn spawn_pylons(rng: &mut SimulationRng, board: i64) -> (r: Vec<Pylon>)
    requires
        1 <= board <= COORD_LIMIT,
    ensures
        (r@, *final(rng)) == spawn_pylons_spec(*old(rng), board as int),
        pylons_wf(r@),
{
    let mut out: Vec<Pylon> = Vec::new();
    let mut k: usize = 0;
    while k < PYLON_COUNT
        invariant
            0 <= k <= PYLON_COUNT,
            1 <= board <= COORD_LIMIT,
            out@.len() == k,
            forall|i: int| 0 <= i < k ==> pylon_wf(#[trigger] out@[i]),
            ({
                let rest = spawn_pylons_from(*rng, board as int, k as int);
                (out@ + rest.0, rest.1) == spawn_pylons_spec(*old(rng), board as int)
            }),
        decreases PYLON_COUNT - k,
    {
        let ghost rng_in = *rng;
        proof {
            assert(0 <= board * 15 / 100 <= board * 30 / 100 <= 300_000_000) by (nonlinear_arith)
                requires
                    1 <= board as int <= 1_000_000_000,
            ;
            lemma_spawn_pylon_wf(rng_in, board as int);
        }
        let lo = div_tz(board * 15, 100);
        let hi = div_tz(board * 30, 100);
        proof {
            assert(0 <= board * 15 <= 15_000_000_000 && 0 <= board * 30 <= 30_000_000_000)
                by (nonlinear_arith)
                requires
                    1 <= board as int <= 1_000_000_000,
            ;
            assert(lo <= hi) by (nonlinear_arith)
                requires
                    0 <= board * 15 <= board * 30,
                    lo == dtz(board * 15, 100),
                    hi == dtz(board * 30, 100),
            ;
        }
        let r = rng.gen_fx(lo, hi);
        let theta = rng.gen_range(0, 5039);
        let s = rng.gen_fx(20_000, 60_000);
        let m = rng.gen_fx(1_000, 2_000);
        let c = cos_turn(theta);
        let sn = sin_turn(theta);
        proof {
            assert(-300_000_000_000 <= c * r <= 300_000_000_000) by (nonlinear_arith)
                requires
                    -1000 <= c <= 1000,
                    0 <= r <= 300_000_000,
            ;
            assert(-300_000_000_000 <= sn * r <= 300_000_000_000) by (nonlinear_arith)
                requires
                    -1000 <= sn <= 1000,
                    0 <= r <= 300_000_000,
            ;
            assert(-60_000_000 <= -sn * s <= 60_000_000 && -60_000_000 <= c * s <= 60_000_000)
                by (nonlinear_arith)
                requires
                    -1000 <= c <= 1000,
                    -1000 <= sn <= 1000,
                    20_000 <= s <= 60_000,
            ;
        }
        let px = div_tz(c * r, 1000);
        let py = div_tz(sn * r, 1000);
        let vx = div_tz(-sn * s, 1000);
        let vy = div_tz(c * s, 1000);
        let p = Pylon { pos: V2 { x: px, y: py }, velocity: V2 { x: vx, y: vy }, mass: m };
        proof {
            assert(p == spawn_pylon_spec(rng_in, board as int).0);
            assert(*rng == spawn_pylon_spec(rng_in, board as int).1);
        }
        out.push(p);
        k = k + 1;
        proof {
            let rest = spawn_pylons_from(*rng, board as int, k as int);
            assert(out@ + rest.0 =~= spawn_pylons_spec(*old(rng), board as int).0);
        }
    }
    proof {
        assert(out@ + spawn_pylons_from(*rng, board as int, PYLON_COUNT as int).0 =~= out@);
    }
    out
}

/// The gravity pull of pylon `j` on pylon `i`: along the line between them,
/// proportional to the source mass, with the squared distance floored at
/// `PYLON_DIST_FLOOR` whole units.
pub open spec fn pylon_accel_term(ps: Seq<Pylon>, i: int, j: int) -> V2 {
    let off = V2 { x: (ps[j].pos.x - ps[i].pos.x) as i64, y: (ps[j].pos.y - ps[i].pos.y) as i64 };
    if i == j || off == (V2 { x: 0, y: 0 }) {
        V2 { x: 0, y: 0 }
    } else {
        let d2u = {
            let raw = dist_sq_spec(ps[j].pos, ps[i].pos) / 1_000_000;
            if raw < PYLON_DIST_FLOOR {
                PYLON_DIST_FLOOR as int
            } else {
                raw
            }
        };
        let coef = PYLON_GRAVITY * ps[j].mass / d2u;
        rescale_spec(off, vlen_spec(off), coef)
    }
}

/// Sum of the pulls on pylon `i` from index `j` onward.
pub open spec fn pylon_accel_from(ps: Seq<Pylon>, i: int, j: int) -> V2
    decreases ps.len() - j,
{
    if j < 0 || j >= ps.len() {
        V2 { x: 0, y: 0 }
    } else {
        let t = pylon_accel_term(ps, i, j);
        let rest = pylon_accel_from(ps, i, j + 1);
        V2 { x: (t.x + rest.x) as i64, y: (t.y + rest.y) as i64 }
    }
}

pub proof fn lemma_pylon_accel_term_bound(ps: Seq<Pylon>, i: int, j: int)
    requires
        0 <= i < ps.len(),
        0 <= j < ps.len(),
        pylon_wf(ps[i]),
        pylon_wf(ps[j]),
    ensures
        in_box(pylon_accel_term(ps, i, j), 9_000),
{
    let off = V2 { x: (ps[j].pos.x - ps[i].pos.x) as i64, y: (ps[j].pos.y - ps[i].pos.y) as i64 };
    if !(i == j || off == (V2 { x: 0, y: 0 })) {
        let raw = dist_sq_spec(ps[j].pos, ps[i].pos) / 1_000_000;
        crate::fx::lemma_sq_bound(off.x as int, 2_000_000_000);
        crate::fx::lemma_sq_bound(off.y as int, 2_000_000_000);
        let d2u = if raw < PYLON_DIST_FLOOR {
            PYLON_DIST_FLOOR as int
        } else {
            raw
        };
        assert(d2u >= 4_000);
        let coef = PYLON_GRAVITY * ps[j].mass / d2u;
        assert(0 <= coef <= 9_000) by (nonlinear_arith)
            requires
                1_000 <= ps[j].mass <= 2_000,
                d2u >= 4_000,
                coef == 18_000 * ps[j].mass / d2u,
        ;
        crate::fx::lemma_fsqrt_bounds(sq(off.x as int) + sq(off.y as int));
        let l = vlen_spec(off);
        assert(sq(off.x as int) + sq(off.y as int) >= 1) by (nonlinear_arith)
            requires
                off.x != 0 || off.y != 0,
        ;
        assert(l >= 1);
        crate::fx::lemma_component_le_len(off);
        crate::fx::lemma_rescale_component_bound(off.x as int, coef, l);
        crate::fx::lemma_rescale_component_bound(off.y as int, coef, l);
    }
}

pub proof fn lemma_pylon_accel_bound(ps: Seq<Pylon>, i: int, j: int)
    requires
        0 <= i < ps.len(),
        0 <= j <= ps.len(),
        pylons_wf(ps),
    ensures
        in_box(pylon_accel_from(ps, i, j), 9_000 * (ps.len() - j)),
        in_box(pylon_accel_from(ps, i, j), 27_000),
    decreases ps.len() - j,
{
    if j < ps.len() {
        lemma_pylon_accel_term_bound(ps, i, j);
        lemma_pylon_accel_bound(ps, i, j + 1);
    }
}

/// One pylon after a frame of `dt` milliseconds: velocity integrates the
/// gravity pull and is capped, the position integrates the velocity, and the
/// pylon bounces off the walls at 45% of the board size.
pub open spec fn animate_pylon_spec(ps: Seq<Pylon>, i: int, board: int, dt: int) -> Pylon {
    let p = ps[i];
    let a = pylon_accel_from(ps, i, 0);
    let v1 = clamp_len_spec(
        V2 {
            x: (p.velocity.x + dtz(a.x * dt, 1000)) as i64,
            y: (p.velocity.y + dtz(a.y * dt, 1000)) as i64,
        },
        PYLON_MAX_SPEED as int,
    );
    let px = V2 {
        x: (p.pos.x + dtz(v1.x * dt, 1000)) as i64,
        y: (p.pos.y + dtz(v1.y * dt, 1000)) as i64,
    };
    let boundary = board * 45 / 100;
    let xo = if px.x > boundary || px.x < -boundary {
        (clamp_spec(px.x as int, -boundary, boundary), -v1.x as int)
    } else {
        (px.x as int, v1.x as int)
    };
    let yo = if px.y > boundary || px.y < -boundary {
        (clamp_spec(px.y as int, -boundary, boundary), -v1.y as int)
    } else {
        (px.y as int, v1.y as int)
    };
    Pylon {
        pos: V2 { x: xo.0 as i64, y: yo.0 as i64 },
        velocity: V2 { x: xo.1 as i64, y: yo.1 as i64 },
        mass: p.mass,
    }
}

pub open spec fn animate_pylons_spec(ps: Seq<Pylon>, board: int, dt: int) -> Seq<Pylon> {
    Seq::new(ps.len(), |i: int| animate_pylon_spec(ps, i, board, dt))
}

/// Integrate pylon gravity for one frame, from a snapshot of all positions.
pub fn animate_pylons(pylons: &mut Vec<Pylon>, board: i64, dt_ms: u64)
    requires
        pylons_wf(old(pylons)@),
        1 <= board <= COORD_LIMIT,
        1 <= dt_ms <= MAX_STEP_MS,
    ensures
        final(pylons)@ == animate_pylons_spec(old(pylons)@, board as int, dt_ms as int),
        pylons_wf(final(pylons)@),
{
    let ghost ps0 = old(pylons)@;
    let dt: i64 = dt_ms as i64;
    let n = pylons.len();
    let boundary = div_tz(board * 45, 100);
    proof {
        assert(0 <= board * 45 <= 45_000_000_000) by (nonlinear_arith)
            requires
                1 <= board as int <= 1_000_000_000,
        ;
        assert(0 <= boundary <= 450_000_000) by (nonlinear_arith)
            requires
                0 <= board * 45 <= 45_000_000_000,
                boundary == dtz(board * 45, 100),
        ;
        assert(boundary == (board as int) * 45 / 100);
    }
    // Snapshot the pylons first: all pulls are computed from the state at the
    // start of the frame.
    let mut snap: Vec<Pylon> = Vec::new();
    let mut z: usize = 0;
    while z < n
        invariant
            0 <= z <= n,
            n == pylons@.len(),
            pylons@ == ps0,
            snap@.len() == z,
            forall|k: int| 0 <= k < z ==> snap@[k] == ps0[k],
        decreases n - z,
    {
        let p = pylons[z];
        snap.push(p);
        z = z + 1;
    }
    proof {
        assert(snap@ =~= ps0);
    }
    let mut i: usize = 0;
    while i < n
        invariant
            0 <= i <= n,
            n == pylons@.len() == ps0.len(),
            snap@ == ps0,
            pylons_wf(ps0),
            1 <= dt <= MAX_STEP_MS,
            dt == dt_ms,
            1 <= board <= COORD_LIMIT,
            boundary == (board as int) * 45 / 100,
            0 <= boundary <= 450_000_000,
            forall|k: int|
                0 <= k < i ==> pylons@[k] == animate_pylon_spec(ps0, k, board as int, dt as int)
                    && pylon_wf(#[trigger] pylons@[k]),
            forall|k: int| i <= k < n ==> pylons@[k] == ps0[k],
        decreases n - i,
    {
        proof {
            assert(pylon_wf(ps0[i as int]));
        }
        let p = snap[i];
        assert(p == ps0[i as int]);
        let mut acc = V2 { x: 0, y: 0 };
        let mut j: usize = n;
        while j > 0
            invariant
                0 <= j <= n,
                n == snap@.len() == ps0.len(),
                snap@ == ps0,
                pylons_wf(ps0),
                0 <= i < n,
                p == ps0[i as int],
                acc == pylon_accel_from(ps0, i as int, j as int),
                in_box(acc, 9_000 * (n - j)),
            decreases j,
        {
            j = j - 1;
            proof {
                assert(pylon_wf(ps0[j as int]));
                assert(pylon_wf(ps0[i as int]));
                lemma_pylon_accel_term_bound(ps0, i as int, j as int);
                lemma_pylon_accel_bound(ps0, i as int, j as int);
            }
            let other = snap[j];
            let off = V2 { x: other.pos.x - p.pos.x, y: other.pos.y - p.pos.y };
            if j == i || (off.x == 0 && off.y == 0) {
                proof {
                    assert(pylon_accel_term(ps0, i as int, j as int) == (V2 { x: 0i64, y: 0i64 }));
                }
            } else {
                let raw = div_tz(dist_sq(other.pos, p.pos), 1_000_000);
                let d2u = if raw < PYLON_DIST_FLOOR {
                    PYLON_DIST_FLOOR
                } else {
                    raw
                };
                proof {
                    assert(raw >= 0);
                    assert(d2u >= 4_000);
                    assert(0 <= 18_000 * other.mass <= 36_000_000) by (nonlinear_arith)
                        requires
                            1_000 <= other.mass <= 2_000,
                    ;
                }
                let coef = div_tz(PYLON_GRAVITY * other.mass, d2u);
                proof {
                    assert(0 <= coef <= 9_000) by (nonlinear_arith)
                        requires
                            0 <= 18_000 * other.mass <= 36_000_000,
                            d2u >= 4_000,
                            coef == dtz(18_000 * other.mass, d2u as int),
                    ;
                    crate::fx::lemma_fsqrt_bounds(sq(off.x as int) + sq(off.y as int));
                    assert(sq(off.x as int) + sq(off.y as int) >= 1) by (nonlinear_arith)
                        requires
                            off.x != 0 || off.y != 0,
                    ;
                    if vlen_spec(off) < 1 {
                        let lz = vlen_spec(off);
                        assert(lz == 0);
                        assert((lz + 1) * (lz + 1) == 1) by (nonlinear_arith)
                            requires
                                lz == 0,
                        ;
                        assert(false);
                    }
                }
                let l = vlen(off);
                let t = rescale(off, l, coef);
                proof {
                    assert(t == pylon_accel_term(ps0, i as int, j as int));
                }
                acc = V2 { x: acc.x + t.x, y: acc.y + t.y };
            }
        }
        proof {
            lemma_pylon_accel_bound(ps0, i as int, 0);
            assert(-27_000 * 600_000 <= acc.x * dt <= 27_000 * 600_000) by (nonlinear_arith)
                requires
                    -27_000 <= acc.x <= 27_000,
                    1 <= dt <= 600_000,
            ;
            assert(-27_000 * 600_000 <= acc.y * dt <= 27_000 * 600_000) by (nonlinear_arith)
                requires
                    -27_000 <= acc.y <= 27_000,
                    1 <= dt <= 600_000,
            ;
            assert(-16_200_000 <= dtz(acc.x * dt, 1000) <= 16_200_000) by (nonlinear_arith)
                requires
                    -16_200_000_000 <= acc.x * dt <= 16_200_000_000,
            ;
            assert(-16_200_000 <= dtz(acc.y * dt, 1000) <= 16_200_000) by (nonlinear_arith)
                requires
                    -16_200_000_000 <= acc.y * dt <= 16_200_000_000,
            ;
        }
        let vx = p.velocity.x + div_tz(acc.x * dt, 1000);
        let vy = p.velocity.y + div_tz(acc.y * dt, 1000);
        let v1 = clamp_len(V2 { x: vx, y: vy }, PYLON_MAX_SPEED);
        proof {
            if vlen_spec(V2 { x: vx, y: vy }) <= PYLON_MAX_SPEED as int {
                crate::fx::lemma_component_le_len(V2 { x: vx, y: vy });
            }
            assert(in_box(v1, PYLON_MAX_SPEED as int));
            assert(-240_000 * 600_000 <= v1.x * dt <= 240_000 * 600_000) by (nonlinear_arith)
                requires
                    -240_000 <= v1.x <= 240_000,
                    1 <= dt <= 600_000,
            ;
            assert(-240_000 * 600_000 <= v1.y * dt <= 240_000 * 600_000) by (nonlinear_arith)
                requires
                    -240_000 <= v1.y <= 240_000,
                    1 <= dt <= 600_000,
            ;
            assert(-144_000_000 <= dtz(v1.x * dt, 1000) <= 144_000_000) by (nonlinear_arith)
                requires
                    -144_000_000_000 <= v1.x * dt <= 144_000_000_000,
            ;
            assert(-144_000_000 <= dtz(v1.y * dt, 1000) <= 144_000_000) by (nonlinear_arith)
                requires
                    -144_000_000_000 <= v1.y * dt <= 144_000_000_000,
            ;
        }
        let pxx = p.pos.x + div_tz(v1.x * dt, 1000);
        let pxy = p.pos.y + div_tz(v1.y * dt, 1000);
        let (nx, nvx): (i64, i64) = if pxx > boundary || pxx < -boundary {
            (clamp_i64(pxx, -boundary, boundary), -v1.x)
        } else {
            (pxx, v1.x)
        };
        let (ny, nvy): (i64, i64) = if pxy > boundary || pxy < -boundary {
            (clamp_i64(pxy, -boundary, boundary), -v1.y)
        } else {
            (pxy, v1.y)
        };
        let np = Pylon { pos: V2 { x: nx, y: ny }, velocity: V2 { x: nvx, y: nvy }, mass: p.mass };
        proof {
            assert(np == animate_pylon_spec(ps0, i as int, board as int, dt as int));
            assert(pylon_wf(np));
        }
        pylons.set(i, np);
        i = i + 1;
    }
    proof {
        assert(pylons@ =~= animate_pylons_spec(ps0, board as int, dt_ms as int));
    }
}

} // verus!
