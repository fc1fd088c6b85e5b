//! Fixed-point scalars and 2-D vectors.
//!
//! A scalar stores thousandths: the board coordinate `1.5` is the integer
//! `1500`. Durations are integer milliseconds, so a speed in board units per
//! second times a duration in milliseconds, divided by `FP`, is a displacement
//! in fixed-point board units. Division always truncates toward zero, which
//! `dtz` captures at the specification level.

use vstd::prelude::*;

verus! {

/// The fixed-point scale: thousandths of a board unit.
pub const FP: i64 = 1000;

/// Every coordinate the world stores is clamped into this box, so that all
/// squared-distance arithmetic stays far from `i64` overflow.
pub const COORD_LIMIT: i64 = 1_000_000_000;

/// A 2-D vector of fixed-point coordinates.
#[derive(Clone, Copy, Debug, PartialEq, Eq, Structural)]
pub struct V2 {
    pub x: i64,
    pub y: i64,
}

pub open spec fn v2(x: int, y: int) -> V2 {
    V2 { x: x as i64, y: y as i64 }
}

/// Both coordinates lie in `[-b, b]`.
pub open spec fn in_box(v: V2, b: int) -> bool {
    -b <= v.x <= b && -b <= v.y <= b
}

/// Truncating (toward zero) division, the meaning of `/` in the executable
/// world; it differs from the Euclidean `/` of specifications on negative
/// dividends.
pub open spec fn dtz(a: int, b: int) -> int {
    if a >= 0 {
        a / b
    } else {
        -((-a) / b)
    }
}

/// Division of a fixed-point value by a positive divisor, truncating toward
/// zero exactly as `dtz` describes.
pub fn div_tz(a: i64, b: i64) -> (r: i64)
    requires
        1 <= b,
        i64::MIN < a,
    ensures
        r == dtz(a as int, b as int),
{
    if a >= 0 {
        let q: u64 = (a as u64) / (b as u64);
        q as i64
    } else {
        let m: u64 = (-a) as u64;
        let q: u64 = m / (b as u64);
        assert(q <= m <= i64::MAX);
        -(q as i64)
    }
}

pub open spec fn clamp_spec(x: int, lo: int, hi: int) -> int {
    if x < lo {
        lo
    } else if x > hi {
        hi
    } else {
        x
    }
}

pub fn clamp_i64(x: i64, lo: i64, hi: i64) -> (r: i64)
    requires
        lo <= hi,
    ensures
        r == clamp_spec(x as int, lo as int, hi as int),
{
    if x < lo {
        lo
    } else if x > hi {
        hi
    } else {
        x
    }
}

pub open spec fn clamp_coord_spec(v: V2) -> V2 {
    V2 {
        x: clamp_spec(v.x as int, -COORD_LIMIT as int, COORD_LIMIT as int) as i64,
        y: clamp_spec(v.y as int, -COORD_LIMIT as int, COORD_LIMIT as int) as i64,
    }
}

/// Clamp a vector into the coordinate box the world is allowed to use.
pub fn clamp_coord(v: V2) -> (r: V2)
    ensures
        r == clamp_coord_spec(v),
        in_box(r, COORD_LIMIT as int),
{
    V2 { x: clamp_i64(v.x, -COORD_LIMIT, COORD_LIMIT), y: clamp_i64(v.y, -COORD_LIMIT, COORD_LIMIT) }
}

/// The floor of the square root of a non-negative integer, characterised by
/// its unique defining property.
pub open spec fn fsqrt(x: int) -> int {
    choose|r: int| 0 <= r && #[trigger] (r * r) <= x && x < (r + 1) * (r + 1)
}

pub proof fn lemma_square_monotone(a: int, b: int)
    by (nonlinear_arith)
    requires
        0 <= a <= b,
    ensures
        a * a <= b * b,
{
}

pub proof fn lemma_fsqrt_is(x: int, r: int)
    requires
        0 <= r,
        r * r <= x,
        x < (r + 1) * (r + 1),
    ensures
        fsqrt(x) == r,
{
    assert(0 <= r && r * r <= x && x < (r + 1) * (r + 1));
    let s = fsqrt(x);
    assert(0 <= s && s * s <= x && x < (s + 1) * (s + 1));
    if s < r {
        lemma_square_monotone(s + 1, r);
        assert(false);
    }
    if r < s {
        lemma_square_monotone(r + 1, s);
        assert(false);
    }
}

pub proof fn lemma_fsqrt_bounds(x: int)
    requires
        0 <= x,
    ensures
        0 <= fsqrt(x),
        fsqrt(x) * fsqrt(x) <= x,
        x < (fsqrt(x) + 1) * (fsqrt(x) + 1),
    decreases x,
{
    if x == 0 {
        lemma_fsqrt_is(0, 0);
    } else {
        lemma_fsqrt_bounds(x - 1);
        let r = fsqrt(x - 1);
        if (r + 1) * (r + 1) <= x {
            assert(x < (r + 2) * (r + 2)) by (nonlinear_arith)
                requires
                    0 <= r,
                    x - 1 < (r + 1) * (r + 1),
            ;
            lemma_fsqrt_is(x, r + 1);
        } else {
            lemma_fsqrt_is(x, r);
        }
    }
}

/// Floor square root of a machine integer, by bisection.
pub fn isqrt_u64(x: u64) -> (r: u64)
    ensures
        r * r <= x < (r + 1) * (r + 1),
        r == fsqrt(x as int),
{
    let mut lo: u64 = 0;
    let mut hi: u64 = 4294967296;
    while lo + 1 < hi
        invariant
            lo < hi <= 4294967296,
            lo * lo <= x,
            x < hi * hi,
        decreases hi - lo,
    {
        let mid = lo + (hi - lo) / 2;
        assert(lo < mid < hi);
        assert(mid * mid <= 4294967295 * 4294967295) by (nonlinear_arith)
            requires
                0 <= mid <= 4294967295,
        ;
        if mid * mid <= x {
            lo = mid;
        } else {
            hi = mid;
        }
    }
    proof {
        lemma_fsqrt_is(x as int, lo as int);
    }
    lo
}

pub open spec fn sq(a: int) -> int {
    a * a
}

/// Squared Euclidean distance between two in-box points.
pub open spec fn dist_sq_spec(a: V2, b: V2) -> int {
    sq(a.x - b.x) + sq(a.y - b.y)
}

pub proof fn lemma_sq_bound(a: int, m: int)
    by (nonlinear_arith)
    requires
        -m <= a <= m,
        0 <= m,
    ensures
        0 <= a * a <= m * m,
{
}

pub fn dist_sq(a: V2, b: V2) -> (r: i64)
    requires
        in_box(a, COORD_LIMIT as int),
        in_box(b, COORD_LIMIT as int),
    ensures
        r == dist_sq_spec(a, b),
        0 <= r,
{
    let dx = a.x - b.x;
    let dy = a.y - b.y;
    proof {
        lemma_sq_bound(dx as int, 2 * COORD_LIMIT as int);
        lemma_sq_bound(dy as int, 2 * COORD_LIMIT as int);
    }
    dx * dx + dy * dy
}

/// Fixed-point length of an in-box vector.
pub open spec fn vlen_spec(v: V2) -> int {
    fsqrt(sq(v.x as int) + sq(v.y as int))
}

pub fn vlen(v: V2) -> (r: i64)
    requires
        in_box(v, 2 * COORD_LIMIT as int),
    ensures
        r == vlen_spec(v),
        0 <= r <= 3 * COORD_LIMIT,
        sq(r as int) <= sq(v.x as int) + sq(v.y as int) < sq(r as int + 1),
{
    proof {
        lemma_sq_bound(v.x as int, 2_000_000_000);
        lemma_sq_bound(v.y as int, 2_000_000_000);
        assert(sq(v.x as int) <= 4_000_000_000_000_000_000);
        assert(sq(v.y as int) <= 4_000_000_000_000_000_000);
    }
    let s: i64 = v.x * v.x + v.y * v.y;
    let r = isqrt_u64(s as u64);
    proof {
        if r > 3 * COORD_LIMIT {
            lemma_square_monotone(3 * COORD_LIMIT as int, r as int);
            assert(false);
        }
    }
    r as i64
}

/// The length of a vector bounds each of its components.
pub proof fn lemma_component_le_len(v: V2)
    requires
        in_box(v, 2 * COORD_LIMIT as int),
    ensures
        -vlen_spec(v) <= v.x <= vlen_spec(v),
        -vlen_spec(v) <= v.y <= vlen_spec(v),
{
    lemma_sq_bound(v.x as int, 2 * COORD_LIMIT as int);
    lemma_sq_bound(v.y as int, 2 * COORD_LIMIT as int);
    let s = sq(v.x as int) + sq(v.y as int);
    lemma_fsqrt_bounds(s);
    let r = fsqrt(s);
    if v.x > r || v.x < -r {
        assert((r + 1) * (r + 1) <= v.x * v.x) by (nonlinear_arith)
            requires
                0 <= r,
                v.x > r || v.x < -r,
        ;
        assert(false);
    }
    if v.y > r || v.y < -r {
        assert((r + 1) * (r + 1) <= v.y * v.y) by (nonlinear_arith)
            requires
                0 <= r,
                v.y > r || v.y < -r,
        ;
        assert(false);
    }
}

/// A vector of length `len` rescaled to length `scale` (in fixed-point,
/// component-wise, truncating toward zero).
pub open spec fn rescale_spec(v: V2, len: int, scale: int) -> V2 {
    V2 { x: dtz(v.x * scale, len) as i64, y: dtz(v.y * scale, len) as i64 }
}

/// `|dtz(a * c, l)| <= c` whenever `|a| <= l`: rescaling never overshoots.
pub proof fn lemma_rescale_component_bound(a: int, c: int, l: int)
    by (nonlinear_arith)
    requires
        1 <= l,
        0 <= c,
        -l <= a <= l,
    ensures
        -c <= dtz(a * c, l) <= c,
{
    if a >= 0 {
        assert(a * c <= l * c);
        assert(a * c / l <= l * c / l);
    } else {
        assert((-a) * c <= l * c);
        assert((-a) * c / l <= l * c / l);
    }
}

/// Rescale `v` to the given non-negative length `scale`, using `v`'s own
/// length as the divisor: the fixed-point normalise-and-multiply.
pub fn rescale(v: V2, len: i64, scale: i64) -> (r: V2)
    requires
        in_box(v, 2 * COORD_LIMIT as int),
        len == vlen_spec(v),
        1 <= len,
        0 <= scale <= COORD_LIMIT,
    ensures
        r == rescale_spec(v, len as int, scale as int),
        in_box(r, scale as int),
{
    proof {
        lemma_component_le_len(v);
        lemma_rescale_component_bound(v.x as int, scale as int, len as int);
        lemma_rescale_component_bound(v.y as int, scale as int, len as int);
        assert(-(2 * COORD_LIMIT) * COORD_LIMIT <= v.x * scale <= 2 * COORD_LIMIT * COORD_LIMIT)
            by (nonlinear_arith)
            requires
                -(2 * COORD_LIMIT as int) <= v.x <= 2 * COORD_LIMIT as int,
                0 <= scale <= COORD_LIMIT as int,
        ;
        assert(-(2 * COORD_LIMIT) * COORD_LIMIT <= v.y * scale <= 2 * COORD_LIMIT * COORD_LIMIT)
            by (nonlinear_arith)
            requires
                -(2 * COORD_LIMIT as int) <= v.y <= 2 * COORD_LIMIT as int,
                0 <= scale <= COORD_LIMIT as int,
        ;
    }
    let nx = div_tz(v.x * scale, len);
    let ny = div_tz(v.y * scale, len);
    V2 { x: nx, y: ny }
}

/// A vector clamped to maximum length `cap`: unchanged when already short
/// enough, otherwise rescaled to length `cap`.
pub open spec fn clamp_len_spec(v: V2, cap: int) -> V2 {
    let l = vlen_spec(v);
    if l <= cap {
        v
    } else {
        rescale_spec(v, l, cap)
    }
}

pub fn clamp_len(v: V2, cap: i64) -> (r: V2)
    requires
        in_box(v, 2 * COORD_LIMIT as int),
        0 <= cap <= COORD_LIMIT,
    ensures
        r == clamp_len_spec(v, cap as int),
        in_box(r, cap as int) || (vlen_spec(v) <= cap && r == v),
{
    let l = vlen(v);
    if l <= cap {
        v
    } else {
        rescale(v, l, cap)
    }
}

/// Fixed-point `exp(-x)` for `x >= 0` (both scaled by `FP`): a cubic Taylor
/// polynomial on `[0, 0.25]`, extended by repeated squaring, and zero beyond
/// `8`, where the true value drops below the fixed-point resolution.
pub open spec fn exp_neg_spec(x: int) -> int
    decreases x,
{
    if x < 0 {
        1000
    } else if x >= 8000 {
        0
    } else if x > 250 {
        let h = exp_neg_spec(x / 2);
        h * h / 1000
    } else {
        1000 - x + x * x / 2000 - x * x * x / 6_000_000
    }
}

pub proof fn lemma_exp_neg_bounds(x: int)
    ensures
        0 <= exp_neg_spec(x) <= 1000,
    decreases x,
{
    if 0 <= x && x < 8000 && x > 250 {
        lemma_exp_neg_bounds(x / 2);
        let h = exp_neg_spec(x / 2);
        assert(0 <= h * h / 1000 <= 1000) by (nonlinear_arith)
            requires
                0 <= h <= 1000,
        ;
    } else if 0 <= x <= 250 {
        assert(0 <= 1000 - x + x * x / 2000 - x * x * x / 6_000_000 <= 1000) by (nonlinear_arith)
            requires
                0 <= x <= 250,
        ;
    }
}

/// Executable fixed-point `exp(-x)`.
pub fn exp_neg(x: i64) -> (r: i64)
    requires
        0 <= x,
    ensures
        r == exp_neg_spec(x as int),
        0 <= r <= 1000,
    decreases x,
{
    proof {
        lemma_exp_neg_bounds(x as int);
    }
    if x >= 8000 {
        0
    } else if x > 250 {
        let h = exp_neg(x / 2);
        h * h / 1000
    } else {
        proof {
            assert(x * x <= 62_500 && x * x * x <= 15_625_000 && 0 <= x * x && 0 <= x * x * x)
                by (nonlinear_arith)
                requires
                    0 <= x <= 250,
            ;
        }
        1000 - x + (x * x) / 2000 - (x * x * x) / 6_000_000
    }
}

} // verus!
