//! Fixed-point scalars.
//!
//! Every length, coordinate and coefficient in this crate is an `i64`
//! counting micro-units: `SCALE` of them make one unit of world space.
//! This module holds the shared range constants and the integer
//! primitives the geometry is built on: divisions with controlled
//! rounding, integer square roots, and the saturating arithmetic the
//! dynamics filter runs on.

use vstd::prelude::*;

verus! {

/// Number of micro-units in one world unit.
pub const SCALE: i64 = 1_000_000;

/// Hard bound on any coordinate fed to the vector arithmetic: with all
/// components in `[-MAX_COORD, MAX_COORD]`, differences, squares and
/// three-term dot products of differences all fit in `i64`.
pub const MAX_COORD: i64 = 800_000_000;

/// Bound kept on every stored joint position.
pub const MAX_POS: i64 = 500_000_000;

/// Bound on solve anchors (chain base and target) and obstacle corners.
pub const MAX_ANCHOR: i64 = 200_000_000;

/// Cap on the total length of a chain.
pub const MAX_REACH: i64 = 300_000_000;

/// Cap on an obstacle radius or half-extent.
pub const MAX_RADIUS: i64 = 100_000_000;

/// Cap on a collision margin.
pub const MAX_MARGIN: i64 = 100_000_000;

/// Squared length below which a direction counts as degenerate
/// (a tenth of a milli-unit, squared).
pub const DEGEN_EPS_SQ: i64 = 10_000;

/// Squared displacement below which a pushed joint counts as unmoved.
pub const MOVE_EPS_SQ: i64 = 100_000_000;

/// Ceiling of `a / b` for non-negative `a` and positive `b`.
pub open spec fn spec_div_ceil(a: int, b: int) -> int {
    (a + b - 1) / b
}

/// Quotient of `a / b` rounded away from zero, for positive `b`.
pub open spec fn spec_div_away(a: int, b: int) -> int {
    if a >= 0 {
        spec_div_ceil(a, b)
    } else {
        -spec_div_ceil(-a, b)
    }
}

/// The non-negative integer square root: the unique `r >= 0` with
/// `r * r <= n < (r + 1) * (r + 1)`.
pub open spec fn sqrt_floor(n: int) -> int {
    choose|r: int| 0 <= r && #[trigger] (r * r) <= n && n < (r + 1) * (r + 1)
}

/// Any non-negative `n` has an integer square root.
pub proof fn lemma_sqrt_exists(n: int)
    requires
        0 <= n,
    ensures
        exists|r: int| 0 <= r && #[trigger] (r * r) <= n && n < (r + 1) * (r + 1),
    decreases n,
{
    if n == 0 {
        let w: int = 0;
        assert(w * w == 0 && (w + 1) * (w + 1) == 1) by (nonlinear_arith)
            requires w == 0;
        assert(0 <= w && w * w <= n && n < (w + 1) * (w + 1));
    } else {
        lemma_sqrt_exists(n - 1);
        let r = choose|r: int| 0 <= r && #[trigger] (r * r) <= n - 1 && n - 1 < (r + 1) * (r + 1);
        if n < (r + 1) * (r + 1) {
            assert(0 <= r && r * r <= n && n < (r + 1) * (r + 1));
        } else {
            assert((r + 1) * (r + 1) < (r + 2) * (r + 2)) by (nonlinear_arith)
                requires 0 <= r;
            assert(0 <= r + 1 && (r + 1) * (r + 1) <= n && n < (r + 1 + 1) * (r + 1 + 1));
        }
    }
}

/// The integer square root is unique, so any witness equals `sqrt_floor`.
pub proof fn lemma_sqrt_unique(n: int, r: int)
    requires
        0 <= r,
        r * r <= n,
        n < (r + 1) * (r + 1),
    ensures
        r == sqrt_floor(n),
{
    lemma_sqrt_exists(n);
    let s = sqrt_floor(n);
    assert(0 <= s && s * s <= n && n < (s + 1) * (s + 1));
    if r < s {
        assert((r + 1) * (r + 1) <= s * s) by (nonlinear_arith)
            requires 0 <= r, r + 1 <= s;
        assert(false);
    }
    if s < r {
        assert((s + 1) * (s + 1) <= r * r) by (nonlinear_arith)
            requires 0 <= s, s + 1 <= r;
        assert(false);
    }
}

/// `sqrt_floor` never decreases when its argument grows.
pub proof fn lemma_sqrt_monotone(a: int, b: int)
    requires
        0 <= a <= b,
    ensures
        sqrt_floor(a) <= sqrt_floor(b),
{
    lemma_sqrt_exists(a);
    lemma_sqrt_exists(b);
    let ra = sqrt_floor(a);
    let rb = sqrt_floor(b);
    assert(0 <= ra && ra * ra <= a && a < (ra + 1) * (ra + 1));
    assert(0 <= rb && rb * rb <= b && b < (rb + 1) * (rb + 1));
    if rb < ra {
        assert((rb + 1) * (rb + 1) <= ra * ra) by (nonlinear_arith)
            requires 0 <= rb, rb + 1 <= ra;
        assert(false);
    }
}

/// `sqrt_floor` of a perfect square `r * r` is `r` itself.
pub proof fn lemma_sqrt_square(r: int)
    requires
        0 <= r,
    ensures
        sqrt_floor(r * r) == r,
{
    assert(r * r < (r + 1) * (r + 1)) by (nonlinear_arith)
        requires 0 <= r;
    lemma_sqrt_unique(r * r, r);
}

/// Division of a non-negative dividend by a positive divisor, rounded up.
pub fn div_ceil(a: i64, b: i64) -> (r: i64)
    requires
        0 <= a,
        0 < b,
        a + b - 1 <= i64::MAX,
    ensures
        r == spec_div_ceil(a as int, b as int),
        b * r >= a,
        0 <= r <= a,
{
    let n = a + (b - 1);
    let q = n / b;
    proof {
        vstd::arithmetic::div_mod::lemma_fundamental_div_mod(n as int, b as int);
        vstd::arithmetic::div_mod::lemma_div_pos_is_pos(n as int, b as int);
        let m = (n as int) % (b as int);
        assert(0 <= m < b);
        assert(b * (q as int) == a + b - 1 - m);
        assert(b * (q as int) >= a);
        assert(q <= a) by (nonlinear_arith)
            requires
                0 < b,
                0 <= a,
                0 <= q,
                (b as int) * (q as int) <= a + b - 1;
    }
    q
}

/// Division rounded away from zero: the result's magnitude is the ceiling
/// of the exact quotient's magnitude, and its sign follows the dividend.
pub fn div_away(a: i64, b: i64) -> (r: i64)
    requires
        0 < b,
        i64::MIN + b <= a,
        a <= i64::MAX - b,
    ensures
        r == spec_div_away(a as int, b as int),
        a >= 0 ==> b * r >= a && 0 <= r <= a,
        a < 0 ==> b * r <= a && a <= r <= 0,
{
    if a >= 0 {
        div_ceil(a, b)
    } else {
        let m = div_ceil(-a, b);
        proof {
            assert(b * (-m as int) <= a) by (nonlinear_arith)
                requires (b as int) * (m as int) >= -(a as int);
        }
        -m
    }
}

/// If `a <= b * c`, the ceiling of `a / b` is at most `c`.
pub proof fn lemma_div_ceil_le_mul(a: int, b: int, c: int)
    requires
        0 <= a,
        0 < b,
        0 <= c,
        a <= b * c,
    ensures
        spec_div_ceil(a, b) <= c,
{
    vstd::arithmetic::div_mod::lemma_fundamental_div_mod(a + b - 1, b);
    let q = spec_div_ceil(a, b);
    let m = (a + b - 1) % b;
    assert(0 <= m < b);
    assert(b * q == a + b - 1 - m);
    assert(q <= c) by (nonlinear_arith)
        requires
            0 < b,
            b * q <= a + b - 1,
            a <= b * c;
}

/// The defining bounds of `sqrt_floor`, available at spec level.
pub proof fn lemma_sqrt_bounds(n: int)
    requires
        0 <= n,
    ensures
        0 <= sqrt_floor(n),
        sqrt_floor(n) * sqrt_floor(n) <= n,
        n < (sqrt_floor(n) + 1) * (sqrt_floor(n) + 1),
{
    lemma_sqrt_exists(n);
}

/// The ceiling quotient covers the dividend: `b * ceil(a / b) >= a`.
pub proof fn lemma_div_ceil_lower(a: int, b: int)
    requires
        0 <= a,
        0 < b,
    ensures
        0 <= spec_div_ceil(a, b),
        b * spec_div_ceil(a, b) >= a,
{
    vstd::arithmetic::div_mod::lemma_fundamental_div_mod(a + b - 1, b);
    vstd::arithmetic::div_mod::lemma_div_pos_is_pos(a + b - 1, b);
    let q = spec_div_ceil(a, b);
    let m = (a + b - 1) % b;
    assert(0 <= m < b);
    assert(b * q == a + b - 1 - m);
}

/// The away-from-zero quotient covers the dividend on its own side.
pub proof fn lemma_div_away_cover(a: int, b: int)
    requires
        0 < b,
    ensures
        a >= 0 ==> b * spec_div_away(a, b) >= a && spec_div_away(a, b) >= 0,
        a < 0 ==> b * spec_div_away(a, b) <= a && spec_div_away(a, b) <= 0,
{
    if a >= 0 {
        lemma_div_ceil_lower(a, b);
    } else {
        lemma_div_ceil_lower(-a, b);
        let m = spec_div_ceil(-a, b);
        assert(b * (-m) <= a) by (nonlinear_arith)
            requires b * m >= -a;
    }
}

/// The away-from-zero quotient of a dividend within `b * c` stays
/// within `c`.
pub proof fn lemma_div_away_le(a: int, b: int, c: int)
    requires
        0 < b,
        0 <= c,
        -(b * c) <= a <= b * c,
    ensures
        -c <= spec_div_away(a, b) <= c,
{
    if a >= 0 {
        lemma_div_ceil_lower(a, b);
        lemma_div_ceil_le_mul(a, b, c);
    } else {
        lemma_div_ceil_lower(-a, b);
        lemma_div_ceil_le_mul(-a, b, c);
    }
}

/// Executable integer square root.
///
/// Returns the floor of the real square root; the spec-level
/// `sqrt_floor` is pinned to the same value.
pub fn isqrt(n: i64) -> (r: i64)
    requires
        0 <= n,
    ensures
        0 <= r,
        r * r <= n,
        n < (r + 1) * (r + 1),
        r == sqrt_floor(n as int),
        r <= 3_037_000_499,
{
    let mut lo: i64 = 0;
    let mut hi: i64 = 3_037_000_500;
    while lo + 1 < hi
        invariant
            0 <= lo < hi <= 3_037_000_500,
            lo * lo <= n,
            n < hi * hi,
        decreases hi - lo,
    {
        let mid = lo + (hi - lo) / 2;
        proof {
            assert(lo < mid < hi);
            assert(mid * mid <= 3_037_000_499i64 * 3_037_000_499i64) by (nonlinear_arith)
                requires 0 <= mid <= 3_037_000_499;
        }
        if mid * mid <= n {
            lo = mid;
        } else {
            hi = mid;
        }
    }
    proof {
        lemma_sqrt_unique(n as int, lo as int);
    }
    lo
}

/// Quotient rounded toward zero, for positive `b`.
pub open spec fn spec_div_trunc(a: int, b: int) -> int {
    if a >= 0 {
        a / b
    } else {
        -((-a) / b)
    }
}

/// Signed division rounded toward zero.
pub fn div_trunc(a: i64, b: i64) -> (r: i64)
    requires
        0 < b,
        i64::MIN < a,
    ensures
        r == spec_div_trunc(a as int, b as int),
        a >= 0 ==> 0 <= r <= a,
        a < 0 ==> a <= r <= 0,
{
    proof {
        if a >= 0 {
            vstd::arithmetic::div_mod::lemma_div_pos_is_pos(a as int, b as int);
            vstd::arithmetic::div_mod::lemma_div_nonincreasing(a as int, b as int);
        } else {
            vstd::arithmetic::div_mod::lemma_div_pos_is_pos(-(a as int), b as int);
            vstd::arithmetic::div_mod::lemma_div_nonincreasing(-(a as int), b as int);
        }
    }
    if a >= 0 {
        a / b
    } else {
        -((-a) / b)
    }
}

/// Integer square root of a wide value (up to the squared ray range).
pub fn isqrt_wide(n: i128) -> (r: i64)
    requires
        0 <= n,
        n < 49_000_000_000_000_000_000_000_000_000_000,
    ensures
        0 <= r,
        (r as int) * (r as int) <= n,
        n < ((r + 1) as int) * ((r + 1) as int),
        r == sqrt_floor(n as int),
        r <= 7_000_000_000_000_000,
{
    let mut lo: i64 = 0;
    let mut hi: i64 = 7_000_000_000_000_000;
    proof {
        assert((7_000_000_000_000_000 as int) * (7_000_000_000_000_000 as int)
            == 49_000_000_000_000_000_000_000_000_000_000int) by (nonlinear_arith);
    }
    while lo + 1 < hi
        invariant
            0 <= lo < hi <= 7_000_000_000_000_000,
            (lo as int) * (lo as int) <= n,
            n < (hi as int) * (hi as int),
        decreases hi - lo,
    {
        let mid = lo + (hi - lo) / 2;
        proof {
            assert(lo < mid < hi);
            assert((mid as int) * (mid as int)
                <= 7_000_000_000_000_000int * 7_000_000_000_000_000int) by (nonlinear_arith)
                requires 0 <= mid <= 7_000_000_000_000_000;
            assert((mid as i128) * (mid as i128) == (mid as int) * (mid as int))
                by (nonlinear_arith);
        }
        let sq_mid: i128 = (mid as i128) * (mid as i128);
        if sq_mid <= n {
            lo = mid;
        } else {
            hi = mid;
        }
    }
    proof {
        lemma_sqrt_unique(n as int, lo as int);
    }
    lo
}

/// Saturating bound used by the dynamics filter state.
pub const SAT_LIMIT: i64 = 4_000_000_000_000_000;

/// Clamp an unbounded intermediate value into the saturation range.
pub open spec fn spec_clamp(v: int) -> int {
    if v > SAT_LIMIT as int {
        SAT_LIMIT as int
    } else if v < -(SAT_LIMIT as int) {
        -(SAT_LIMIT as int)
    } else {
        v
    }
}

/// Fixed-point product `a * f / SCALE` with the quotient rounded toward
/// zero, then clamped into the saturation range.
pub open spec fn spec_sat_scale(a: int, f: int) -> int {
    let p = a * f;
    if p >= 0 {
        spec_clamp(p / (SCALE as int))
    } else {
        spec_clamp(-((-p) / (SCALE as int)))
    }
}

/// Saturating addition of two values already in the saturation range.
pub fn sat_add(a: i64, b: i64) -> (r: i64)
    requires
        -SAT_LIMIT <= a <= SAT_LIMIT,
        -SAT_LIMIT <= b <= SAT_LIMIT,
    ensures
        r == spec_clamp(a + b),
        -SAT_LIMIT <= r <= SAT_LIMIT,
{
    let s = a + b;
    if s > SAT_LIMIT {
        SAT_LIMIT
    } else if s < -SAT_LIMIT {
        -SAT_LIMIT
    } else {
        s
    }
}

/// Saturating fixed-point scaling: `a * f / SCALE`, clamped.
pub fn sat_scale(a: i64, f: i64) -> (r: i64)
    requires
        -SAT_LIMIT <= a <= SAT_LIMIT,
        -SAT_LIMIT <= f <= SAT_LIMIT,
    ensures
        r == spec_sat_scale(a as int, f as int),
        -SAT_LIMIT <= r <= SAT_LIMIT,
{
    proof {
        assert(-SAT_LIMIT * SAT_LIMIT <= (a as int) * (f as int) <= SAT_LIMIT * SAT_LIMIT)
            by (nonlinear_arith)
            requires
                -SAT_LIMIT <= a <= SAT_LIMIT,
                -SAT_LIMIT <= f <= SAT_LIMIT;
    }
    let p: i128 = (a as i128) * (f as i128);
    let q: i128 = if p >= 0 {
        let t = p / (SCALE as i128);
        proof {
            vstd::arithmetic::div_mod::lemma_div_pos_is_pos(p as int, SCALE as int);
            vstd::arithmetic::div_mod::lemma_div_is_ordered(
                p as int,
                SAT_LIMIT * SAT_LIMIT,
                SCALE as int,
            );
        }
        t
    } else {
        let t = (-p) / (SCALE as i128);
        proof {
            vstd::arithmetic::div_mod::lemma_div_pos_is_pos(-(p as int), SCALE as int);
            vstd::arithmetic::div_mod::lemma_div_is_ordered(
                -(p as int),
                SAT_LIMIT * SAT_LIMIT,
                SCALE as int,
            );
        }
        -t
    };
    if q > SAT_LIMIT as i128 {
        SAT_LIMIT
    } else if q < -SAT_LIMIT as i128 {
        -SAT_LIMIT
    } else {
        q as i64
    }
}

} // verus!
