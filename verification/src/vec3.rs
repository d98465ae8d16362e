//! Three-dimensional fixed-point vectors.
//!
//! `Vec3` is the executable point/direction type: three `i64` components
//! in micro-units.  Its mathematical view is `V3`, the same triple over
//! unbounded integers, and every geometric operation is specified over
//! `V3` so that contracts are pure integer statements.
//!
//! The one nontrivial primitive is `offset_from`: place a point at a
//! requested distance from an anchor along the direction toward another
//! point.  Its division rounds away from zero, so the placed point is
//! never closer to the anchor than the requested length, while each
//! component of the offset still stays within that length.

use vstd::prelude::*;
use crate::fixed::spec_div_away;
use crate::fixed::sqrt_floor;
use crate::fixed::div_away;
use crate::fixed::isqrt;
use crate::fixed::DEGEN_EPS_SQ;
use crate::fixed::MAX_COORD;
use crate::fixed::MAX_POS;
use crate::fixed::MAX_REACH;

verus! {

/// Executable fixed-point vector: components in micro-units.
#[derive(Clone, Copy, Debug, PartialEq, Eq, Structural)]
pub struct Vec3 {
    pub x: i64,
    pub y: i64,
    pub z: i64,
}

/// Mathematical view of a `Vec3`: the same triple over unbounded integers.
pub ghost struct V3 {
    pub x: int,
    pub y: int,
    pub z: int,
}

impl View for Vec3 {
    type V = V3;

    open spec fn view(&self) -> V3 {
        V3 { x: self.x as int, y: self.y as int, z: self.z as int }
    }
}

/// The square of an integer.
pub open spec fn sq(v: int) -> int {
    v * v
}

impl V3 {
    /// All three components lie in `[-lim, lim]`.
    pub open spec fn bounded(self, lim: int) -> bool {
        &&& -lim <= self.x <= lim
        &&& -lim <= self.y <= lim
        &&& -lim <= self.z <= lim
    }
}

/// Squared Euclidean distance between two points, in micro-units squared.
pub open spec fn spec_dist_sq(a: V3, b: V3) -> int {
    sq(a.x - b.x) + sq(a.y - b.y) + sq(a.z - b.z)
}

/// Euclidean distance, rounded down to whole micro-units.
pub open spec fn spec_dist(a: V3, b: V3) -> int {
    sqrt_floor(spec_dist_sq(a, b))
}

/// The point at distance `len` from `anchor` in the direction of
/// `toward`; when that direction is degenerate, `len` straight up from
/// `anchor` instead.  Offsets round away from zero.
pub open spec fn spec_offset_from(anchor: V3, toward: V3, len: int) -> V3 {
    let dx = toward.x - anchor.x;
    let dy = toward.y - anchor.y;
    let dz = toward.z - anchor.z;
    let d2 = sq(dx) + sq(dy) + sq(dz);
    if d2 <= DEGEN_EPS_SQ {
        V3 { x: anchor.x, y: anchor.y + len, z: anchor.z }
    } else {
        let n = sqrt_floor(d2);
        V3 {
            x: anchor.x + spec_div_away(dx * len, n),
            y: anchor.y + spec_div_away(dy * len, n),
            z: anchor.z + spec_div_away(dz * len, n),
        }
    }
}

impl Vec3 {
    /// Build a vector from its three micro-unit components.
    pub fn new(x: i64, y: i64, z: i64) -> (r: Vec3)
        ensures
            r@ == (V3 { x: x as int, y: y as int, z: z as int }),
    {
        Vec3 { x, y, z }
    }

    /// The origin.
    pub fn zero() -> (r: Vec3)
        ensures
            r@ == (V3 { x: 0int, y: 0int, z: 0int }),
    {
        Vec3 { x: 0, y: 0, z: 0 }
    }
}

/// Squared distance between two bounded points.
pub fn dist_sq(a: Vec3, b: Vec3) -> (r: i64)
    requires
        a@.bounded(MAX_COORD as int),
        b@.bounded(MAX_COORD as int),
    ensures
        r == spec_dist_sq(a@, b@),
        0 <= r,
{
    let dx = a.x - b.x;
    let dy = a.y - b.y;
    let dz = a.z - b.z;
    proof {
        lemma_diff_sq_bound(dx as int);
        lemma_diff_sq_bound(dy as int);
        lemma_diff_sq_bound(dz as int);
    }
    dx * dx + dy * dy + dz * dz
}

/// Square of a value with magnitude at most two coordinate bounds:
/// non-negative and small enough that three of them fit in `i64`.
proof fn lemma_diff_sq_bound(d: int)
    requires
        -2 * MAX_COORD <= d <= 2 * MAX_COORD,
    ensures
        0 <= sq(d),
        sq(d) <= 4 * (MAX_COORD as int) * (MAX_COORD as int),
{
    assert(0 <= d * d && d * d <= (2 * MAX_COORD) * (2 * MAX_COORD)) by (nonlinear_arith)
        requires -2 * MAX_COORD <= d <= 2 * MAX_COORD;
    assert((2 * (MAX_COORD as int)) * (2 * (MAX_COORD as int))
        == 4 * (MAX_COORD as int) * (MAX_COORD as int)) by (nonlinear_arith);
}

/// Distance between two bounded points, rounded down to micro-units.
pub fn dist(a: Vec3, b: Vec3) -> (r: i64)
    requires
        a@.bounded(MAX_COORD as int),
        b@.bounded(MAX_COORD as int),
    ensures
        r == spec_dist(a@, b@),
        0 <= r <= 3_037_000_499,
{
    isqrt(dist_sq(a, b))
}

/// Place a point at distance `len` from `anchor`, stepping toward
/// `toward`; falls back to straight up when the direction is degenerate.
///
/// The rounding is one-sided: the result is never closer than `len` to
/// the anchor, while each component of the offset is at most `len` in
/// magnitude.
pub fn offset_from(anchor: Vec3, toward: Vec3, len: i64) -> (r: Vec3)
    requires
        anchor@.bounded(MAX_POS as int),
        toward@.bounded(MAX_POS as int),
        0 <= len <= MAX_REACH,
    ensures
        r@ == spec_offset_from(anchor@, toward@, len as int),
        r.x - anchor.x <= len && anchor.x - r.x <= len,
        r.y - anchor.y <= len && anchor.y - r.y <= len,
        r.z - anchor.z <= len && anchor.z - r.z <= len,
        spec_dist_sq(r@, anchor@) >= len * len,
{
    let dx = toward.x - anchor.x;
    let dy = toward.y - anchor.y;
    let dz = toward.z - anchor.z;
    proof {
        lemma_diff_sq_bound(dx as int);
        lemma_diff_sq_bound(dy as int);
        lemma_diff_sq_bound(dz as int);
    }
    let d2 = dx * dx + dy * dy + dz * dz;
    if d2 <= DEGEN_EPS_SQ {
        let r = Vec3 { x: anchor.x, y: anchor.y + len, z: anchor.z };
        proof {
            let gx = r@.x - anchor@.x;
            let gy = r@.y - anchor@.y;
            let gz = r@.z - anchor@.z;
            assert(gx == 0 && gy == len && gz == 0);
            assert(gx * gx + gy * gy + gz * gz >= len * len) by (nonlinear_arith)
                requires gx == 0, gy == len as int, gz == 0;
            assert(spec_dist_sq(r@, anchor@) == gx * gx + gy * gy + gz * gz);
        }
        r
    } else {
        let n = isqrt(d2);
        proof {
            assert(100 * 100 < d2);
            assert(100 <= n) by (nonlinear_arith)
                requires 0 <= n, 100 * 100 < d2, d2 < (n + 1) * (n + 1);
            lemma_comp_le_norm(dx as int, d2 - sq(dx as int), n as int);
            lemma_comp_le_norm(dy as int, d2 - sq(dy as int), n as int);
            lemma_comp_le_norm(dz as int, d2 - sq(dz as int), n as int);
            assert((dx as int) * (len as int) <= (n as int) * (len as int)
                && -((n as int) * (len as int)) <= (dx as int) * (len as int))
                by (nonlinear_arith)
                requires -(n as int) <= dx <= n, 0 <= len;
            assert((dy as int) * (len as int) <= (n as int) * (len as int)
                && -((n as int) * (len as int)) <= (dy as int) * (len as int))
                by (nonlinear_arith)
                requires -(n as int) <= dy <= n, 0 <= len;
            assert((dz as int) * (len as int) <= (n as int) * (len as int)
                && -((n as int) * (len as int)) <= (dz as int) * (len as int))
                by (nonlinear_arith)
                requires -(n as int) <= dz <= n, 0 <= len;
            assert((n as int) * (len as int) <= 4_000_000_000_000_000_000) by (nonlinear_arith)
                requires 0 <= n <= 3_037_000_499, 0 <= len <= 300_000_000;
        }
        let ox = div_away_comp(dx, len, n);
        let oy = div_away_comp(dy, len, n);
        let oz = div_away_comp(dz, len, n);
        let r = Vec3 { x: anchor.x + ox, y: anchor.y + oy, z: anchor.z + oz };
        proof {
            lemma_offset_lower(
                dx as int, dy as int, dz as int,
                ox as int, oy as int, oz as int,
                n as int, len as int, d2 as int,
            );
            assert(spec_dist_sq(r@, anchor@) == sq(ox as int) + sq(oy as int) + sq(oz as int));
        }
        r
    }
}

/// Dot product of two bounded vectors.
pub open spec fn spec_dot(a: V3, b: V3) -> int {
    a.x * b.x + a.y * b.y + a.z * b.z
}

/// Dot product; safe for any two coordinate-bounded vectors.
pub fn dot(a: Vec3, b: Vec3) -> (r: i64)
    requires
        a@.bounded(MAX_COORD as int),
        b@.bounded(MAX_COORD as int),
    ensures
        r == spec_dot(a@, b@),
{
    proof {
        lemma_prod_bound(a.x as int, b.x as int);
        lemma_prod_bound(a.y as int, b.y as int);
        lemma_prod_bound(a.z as int, b.z as int);
    }
    a.x * b.x + a.y * b.y + a.z * b.z
}

/// Product of two coordinate-bounded values stays well inside `i64`.
proof fn lemma_prod_bound(a: int, b: int)
    requires
        -MAX_COORD <= a <= MAX_COORD,
        -MAX_COORD <= b <= MAX_COORD,
    ensures
        -(MAX_COORD as int) * (MAX_COORD as int) <= a * b <= (MAX_COORD as int) * (MAX_COORD as int),
{
    assert(-(MAX_COORD as int) * (MAX_COORD as int) <= a * b
        && a * b <= (MAX_COORD as int) * (MAX_COORD as int)) by (nonlinear_arith)
        requires
            -MAX_COORD <= a <= MAX_COORD,
            -MAX_COORD <= b <= MAX_COORD;
}

/// Cross product of two vectors, componentwise over the views.
pub open spec fn spec_cross(a: V3, b: V3) -> V3 {
    V3 {
        x: a.y * b.z - a.z * b.y,
        y: a.z * b.x - a.x * b.z,
        z: a.x * b.y - a.y * b.x,
    }
}

/// Cross product of two unit-scale vectors.
pub fn cross(a: Vec3, b: Vec3) -> (r: Vec3)
    requires
        a@.bounded(crate::fixed::SCALE as int),
        b@.bounded(crate::fixed::SCALE as int),
    ensures
        r@ == spec_cross(a@, b@),
        r@.bounded(2_000_000_000_000int),
{
    proof {
        lemma_small_prod_bound(a.y as int, b.z as int);
        lemma_small_prod_bound(a.z as int, b.y as int);
        lemma_small_prod_bound(a.z as int, b.x as int);
        lemma_small_prod_bound(a.x as int, b.z as int);
        lemma_small_prod_bound(a.x as int, b.y as int);
        lemma_small_prod_bound(a.y as int, b.x as int);
    }
    Vec3 {
        x: a.y * b.z - a.z * b.y,
        y: a.z * b.x - a.x * b.z,
        z: a.x * b.y - a.y * b.x,
    }
}

/// Product of two unit-scale values is within one squared scale.
proof fn lemma_small_prod_bound(a: int, b: int)
    requires
        -crate::fixed::SCALE <= a <= crate::fixed::SCALE,
        -crate::fixed::SCALE <= b <= crate::fixed::SCALE,
    ensures
        -1_000_000_000_000 <= a * b <= 1_000_000_000_000,
{
    assert(-1_000_000_000_000 <= a * b && a * b <= 1_000_000_000_000) by (nonlinear_arith)
        requires
            -1_000_000 <= a <= 1_000_000,
            -1_000_000 <= b <= 1_000_000;
}

/// Direction of `v` scaled to unit length (`SCALE` micro-units), rounded
/// away from zero componentwise; the zero vector when `v` is degenerate.
pub open spec fn spec_normalize(v: V3) -> V3 {
    let d2 = sq(v.x) + sq(v.y) + sq(v.z);
    if d2 <= DEGEN_EPS_SQ {
        V3 { x: 0, y: 0, z: 0 }
    } else {
        let n = sqrt_floor(d2);
        V3 {
            x: spec_div_away(v.x * (crate::fixed::SCALE as int), n),
            y: spec_div_away(v.y * (crate::fixed::SCALE as int), n),
            z: spec_div_away(v.z * (crate::fixed::SCALE as int), n),
        }
    }
}

/// Normalize a bounded vector to unit scale (or zero when degenerate).
pub fn normalize(v: Vec3) -> (r: Vec3)
    requires
        v@.bounded(MAX_COORD as int),
    ensures
        r@ == spec_normalize(v@),
        r@.bounded(crate::fixed::SCALE as int),
        sq(v@.x) + sq(v@.y) + sq(v@.z) > DEGEN_EPS_SQ ==> spec_dot(r@, r@)
            >= (crate::fixed::SCALE as int) * (crate::fixed::SCALE as int),
        sq(v@.x) + sq(v@.y) + sq(v@.z) <= DEGEN_EPS_SQ ==> r@ == (V3 { x: 0, y: 0, z: 0 }),
{
    proof {
        lemma_diff_sq_bound(v.x as int);
        lemma_diff_sq_bound(v.y as int);
        lemma_diff_sq_bound(v.z as int);
    }
    let d2 = v.x * v.x + v.y * v.y + v.z * v.z;
    if d2 <= DEGEN_EPS_SQ {
        Vec3 { x: 0, y: 0, z: 0 }
    } else {
        let n = isqrt(d2);
        proof {
            lemma_comp_le_norm(v.x as int, d2 - sq(v.x as int), n as int);
            lemma_comp_le_norm(v.y as int, d2 - sq(v.y as int), n as int);
            lemma_comp_le_norm(v.z as int, d2 - sq(v.z as int), n as int);
            assert((n as int) * (crate::fixed::SCALE as int) <= 4_000_000_000_000_000_000)
                by (nonlinear_arith)
                requires 0 <= n <= 3_037_000_499;
        }
        let nx = div_away_comp(v.x, crate::fixed::SCALE, n);
        let ny = div_away_comp(v.y, crate::fixed::SCALE, n);
        let nz = div_away_comp(v.z, crate::fixed::SCALE, n);
        let r = Vec3 { x: nx, y: ny, z: nz };
        proof {
            lemma_offset_lower(
                v.x as int, v.y as int, v.z as int,
                nx as int, ny as int, nz as int,
                n as int, crate::fixed::SCALE as int, d2 as int,
            );
            assert(spec_dot(r@, r@) == sq(nx as int) + sq(ny as int) + sq(nz as int)) by {
                assert(sq(nx as int) == (nx as int) * (nx as int));
                assert(sq(ny as int) == (ny as int) * (ny as int));
                assert(sq(nz as int) == (nz as int) * (nz as int));
            }
        }
        r
    }
}

/// Normalize a vector whose components may reach far outside the world
/// (a distant ray point): same result formula as `normalize`.
pub fn normalize_wide(v: Vec3) -> (r: Vec3)
    requires
        v@.bounded(20_000_000_000int),
    ensures
        r@ == spec_normalize(v@),
        r@.bounded(crate::fixed::SCALE as int),
        sq(v@.x) + sq(v@.y) + sq(v@.z) > DEGEN_EPS_SQ ==> spec_dot(r@, r@)
            >= (crate::fixed::SCALE as int) * (crate::fixed::SCALE as int),
        sq(v@.x) + sq(v@.y) + sq(v@.z) <= DEGEN_EPS_SQ ==> r@ == (V3 { x: 0, y: 0, z: 0 }),
{
    proof {
        lemma_wide_sq_bound(v.x as int);
        lemma_wide_sq_bound(v.y as int);
        lemma_wide_sq_bound(v.z as int);
        assert((v.x as i128) * (v.x as i128) == sq(v.x as int)) by (nonlinear_arith);
        assert((v.y as i128) * (v.y as i128) == sq(v.y as int)) by (nonlinear_arith);
        assert((v.z as i128) * (v.z as i128) == sq(v.z as int)) by (nonlinear_arith);
    }
    let d2: i128 = (v.x as i128) * (v.x as i128) + (v.y as i128) * (v.y as i128) + (v.z as i128)
        * (v.z as i128);
    if d2 <= DEGEN_EPS_SQ as i128 {
        Vec3 { x: 0, y: 0, z: 0 }
    } else {
        let n = crate::fixed::isqrt_wide(d2);
        proof {
            lemma_comp_le_norm(v.x as int, (d2 as int) - sq(v.x as int), n as int);
            lemma_comp_le_norm(v.y as int, (d2 as int) - sq(v.y as int), n as int);
            lemma_comp_le_norm(v.z as int, (d2 as int) - sq(v.z as int), n as int);
            assert(0 < n) by (nonlinear_arith)
                requires 0 <= n, 10_000 < d2 as int, (d2 as int) < ((n + 1) as int) * ((n + 1) as int);
            assert(n <= 40_000_000_000) by (nonlinear_arith)
                requires
                    0 <= n,
                    (n as int) * (n as int) <= d2 as int,
                    d2 as int <= 1_200_000_000_000_000_000_000;
            assert((n as int) * (crate::fixed::SCALE as int) <= 4_000_000_000_000_000_000)
                by (nonlinear_arith)
                requires 0 <= n <= 40_000_000_000;
        }
        let nx = div_away_comp(v.x, crate::fixed::SCALE, n);
        let ny = div_away_comp(v.y, crate::fixed::SCALE, n);
        let nz = div_away_comp(v.z, crate::fixed::SCALE, n);
        let r = Vec3 { x: nx, y: ny, z: nz };
        proof {
            lemma_offset_lower(
                v.x as int, v.y as int, v.z as int,
                nx as int, ny as int, nz as int,
                n as int, crate::fixed::SCALE as int, d2 as int,
            );
            assert(spec_dot(r@, r@) == sq(nx as int) + sq(ny as int) + sq(nz as int)) by {
                assert(sq(nx as int) == (nx as int) * (nx as int));
                assert(sq(ny as int) == (ny as int) * (ny as int));
                assert(sq(nz as int) == (nz as int) * (nz as int));
            }
        }
        r
    }
}

/// Square bound for wide (ray-range) components.
proof fn lemma_wide_sq_bound(d: int)
    requires
        -20_000_000_000 <= d <= 20_000_000_000,
    ensures
        0 <= sq(d),
        sq(d) <= 400_000_000_000_000_000_000,
{
    assert(0 <= d * d && d * d <= 20_000_000_000int * 20_000_000_000int) by (nonlinear_arith)
        requires -20_000_000_000 <= d <= 20_000_000_000;
}

/// One placed component: `d * len / n` rounded away from zero, with its
/// magnitude bounded by `len` and its product with `n` covering `d * len`.
pub(crate) fn div_away_comp(d: i64, len: i64, n: i64) -> (r: i64)
    requires
        0 < n <= 100_000_000_000,
        0 <= len <= MAX_REACH,
        -n <= d <= n,
        (n as int) * (len as int) <= 4_000_000_000_000_000_000,
    ensures
        r == spec_div_away(d * len, n as int),
        -len <= r <= len,
        d >= 0 ==> n * r >= d * len,
        d < 0 ==> n * r <= d * len,
{
    proof {
        assert((d as int) * (len as int) <= (n as int) * (len as int)
            && -((n as int) * (len as int)) <= (d as int) * (len as int))
            by (nonlinear_arith)
            requires
                -n <= d <= n,
                0 <= len;
    }
    let num = d * len;
    let r = div_away(num, n);
    proof {
        if num >= 0 {
            crate::fixed::lemma_div_ceil_le_mul(num as int, n as int, len as int);
        } else {
            crate::fixed::lemma_div_ceil_le_mul(-(num as int), n as int, len as int);
            assert(-(num as int) <= (n as int) * (len as int));
        }
        if d < 0 && num >= 0 {
            assert((d as int) * (len as int) <= 0) by (nonlinear_arith)
                requires d < 0, 0 <= len;
            assert(num == 0);
            assert(r == 0);
            assert((n as int) * (r as int) == 0) by (nonlinear_arith)
                requires r == 0;
        }
    }
    r
}

/// The placement's defining bounds, available at spec level: the placed
/// point is at least `len` from the anchor, and each component of the
/// offset is within `len`.
pub proof fn lemma_offset_from_props(anchor: V3, toward: V3, len: int)
    requires
        0 <= len,
    ensures
        spec_dist_sq(spec_offset_from(anchor, toward, len), anchor) >= len * len,
        spec_offset_from(anchor, toward, len).x - anchor.x <= len,
        anchor.x - spec_offset_from(anchor, toward, len).x <= len,
        spec_offset_from(anchor, toward, len).y - anchor.y <= len,
        anchor.y - spec_offset_from(anchor, toward, len).y <= len,
        spec_offset_from(anchor, toward, len).z - anchor.z <= len,
        anchor.z - spec_offset_from(anchor, toward, len).z <= len,
{
    let dx = toward.x - anchor.x;
    let dy = toward.y - anchor.y;
    let dz = toward.z - anchor.z;
    let d2 = sq(dx) + sq(dy) + sq(dz);
    let r = spec_offset_from(anchor, toward, len);
    if d2 <= DEGEN_EPS_SQ {
        let gx = r.x - anchor.x;
        let gy = r.y - anchor.y;
        let gz = r.z - anchor.z;
        assert(gx == 0 && gy == len && gz == 0);
        assert(gx * gx + gy * gy + gz * gz >= len * len) by (nonlinear_arith)
            requires gx == 0, gy == len, gz == 0;
        assert(spec_dist_sq(r, anchor) == gx * gx + gy * gy + gz * gz);
    } else {
        assert(0 <= sq(dx) && 0 <= sq(dy) && 0 <= sq(dz)) by {
            assert(0 <= dx * dx && 0 <= dy * dy && 0 <= dz * dz) by (nonlinear_arith);
        }
        crate::fixed::lemma_sqrt_bounds(d2);
        let n = sqrt_floor(d2);
        assert(0 < n) by (nonlinear_arith)
            requires 0 <= n, 10_000 < d2, d2 < (n + 1) * (n + 1);
        lemma_comp_le_norm(dx, d2 - sq(dx), n);
        lemma_comp_le_norm(dy, d2 - sq(dy), n);
        lemma_comp_le_norm(dz, d2 - sq(dz), n);
        assert(-(n * len) <= dx * len <= n * len) by (nonlinear_arith)
            requires -n <= dx <= n, 0 <= len;
        assert(-(n * len) <= dy * len <= n * len) by (nonlinear_arith)
            requires -n <= dy <= n, 0 <= len;
        assert(-(n * len) <= dz * len <= n * len) by (nonlinear_arith)
            requires -n <= dz <= n, 0 <= len;
        crate::fixed::lemma_div_away_le(dx * len, n, len);
        crate::fixed::lemma_div_away_le(dy * len, n, len);
        crate::fixed::lemma_div_away_le(dz * len, n, len);
        crate::fixed::lemma_div_away_cover(dx * len, n);
        crate::fixed::lemma_div_away_cover(dy * len, n);
        crate::fixed::lemma_div_away_cover(dz * len, n);
        let ox = spec_div_away(dx * len, n);
        let oy = spec_div_away(dy * len, n);
        let oz = spec_div_away(dz * len, n);
        proof_offset_cover(dx, ox, n, len);
        proof_offset_cover(dy, oy, n, len);
        proof_offset_cover(dz, oz, n, len);
        lemma_offset_lower(dx, dy, dz, ox, oy, oz, n, len, d2);
        assert(spec_dist_sq(r, anchor) == sq(ox) + sq(oy) + sq(oz));
    }
}

/// Rounding error of one placement, from above: when the step spans at
/// least the requested length, the placed point is at most three
/// micro-units beyond it.  Together with the lower bound this pins a
/// placed bone's length into `[len, len + 3]`.
pub proof fn lemma_offset_len_upper(anchor: V3, toward: V3, len: int)
    requires
        0 <= len,
        spec_dist_sq(anchor, toward) > DEGEN_EPS_SQ,
        spec_dist_sq(anchor, toward) >= sq(len),
    ensures
        spec_dist_sq(spec_offset_from(anchor, toward, len), anchor) <= sq(len + 3),
{
    let dx = toward.x - anchor.x;
    let dy = toward.y - anchor.y;
    let dz = toward.z - anchor.z;
    let d2 = sq(dx) + sq(dy) + sq(dz);
    assert(d2 == spec_dist_sq(anchor, toward)) by {
        assert((toward.x - anchor.x) * (toward.x - anchor.x)
            == (anchor.x - toward.x) * (anchor.x - toward.x)) by (nonlinear_arith);
        assert((toward.y - anchor.y) * (toward.y - anchor.y)
            == (anchor.y - toward.y) * (anchor.y - toward.y)) by (nonlinear_arith);
        assert((toward.z - anchor.z) * (toward.z - anchor.z)
            == (anchor.z - toward.z) * (anchor.z - toward.z)) by (nonlinear_arith);
    }
    crate::fixed::lemma_sqrt_bounds(d2);
    let n = sqrt_floor(d2);
    assert(0 < n) by (nonlinear_arith)
        requires 0 <= n, 10_000 < d2, d2 < (n + 1) * (n + 1);
    assert(d2 <= n * n + 2 * n) by (nonlinear_arith)
        requires d2 < (n + 1) * (n + 1);
    assert(len <= n) by {
        crate::fixed::lemma_sqrt_monotone(sq(len), d2);
        crate::fixed::lemma_sqrt_square(len);
    }
    assert(0 <= sq(dx) && 0 <= sq(dy) && 0 <= sq(dz)) by {
        assert(0 <= dx * dx && 0 <= dy * dy && 0 <= dz * dz) by (nonlinear_arith);
    }
    lemma_comp_le_norm(dx, d2 - sq(dx), n);
    lemma_comp_le_norm(dy, d2 - sq(dy), n);
    lemma_comp_le_norm(dz, d2 - sq(dz), n);
    let ox = spec_div_away(dx * len, n);
    let oy = spec_div_away(dy * len, n);
    let oz = spec_div_away(dz * len, n);
    lemma_comp_upper(dx, ox, n, len);
    lemma_comp_upper(dy, oy, n, len);
    lemma_comp_upper(dz, oz, n, len);
    let r = spec_offset_from(anchor, toward, len);
    assert(spec_dist_sq(r, anchor) == sq(ox) + sq(oy) + sq(oz)) by {
        assert((anchor.x + ox - anchor.x) * (anchor.x + ox - anchor.x) == ox * ox)
            by (nonlinear_arith);
        assert((anchor.y + oy - anchor.y) * (anchor.y + oy - anchor.y) == oy * oy)
            by (nonlinear_arith);
        assert((anchor.z + oz - anchor.z) * (anchor.z + oz - anchor.z) == oz * oz)
            by (nonlinear_arith);
    }
    let ax = if dx >= 0 { dx } else { -dx };
    let ay = if dy >= 0 { dy } else { -dy };
    let az = if dz >= 0 { dz } else { -dz };
    assert(sq(ax) == sq(dx) && sq(ay) == sq(dy) && sq(az) == sq(dz)) by {
        assert((-dx) * (-dx) == dx * dx) by (nonlinear_arith);
        assert((-dy) * (-dy) == dy * dy) by (nonlinear_arith);
        assert((-dz) * (-dz) == dz * dz) by (nonlinear_arith);
    }
    assert(ax + ay + az <= 2 * (n + 1)) by {
        assert((ax + ay + az) * (ax + ay + az) <= 3 * (ax * ax + ay * ay + az * az))
            by (nonlinear_arith);
        assert(ax * ax + ay * ay + az * az < (n + 1) * (n + 1)) by {
            assert(sq(ax) == ax * ax && sq(ay) == ay * ay && sq(az) == az * az);
        }
        assert((ax + ay + az) * (ax + ay + az) < (2 * (n + 1)) * (2 * (n + 1)))
            by (nonlinear_arith)
            requires
                (ax + ay + az) * (ax + ay + az) <= 3 * (ax * ax + ay * ay + az * az),
                ax * ax + ay * ay + az * az < (n + 1) * (n + 1);
        assert(ax + ay + az <= 2 * (n + 1)) by (nonlinear_arith)
            requires
                0 <= ax + ay + az,
                (ax + ay + az) * (ax + ay + az) < (2 * (n + 1)) * (2 * (n + 1)),
                0 <= n;
    }
    assert(n * n * (sq(ox) + sq(oy) + sq(oz))
        <= (len * len) * d2 + 2 * len * n * (ax + ay + az) + 3 * (n * n)) by {
        assert(n * n * sq(ox) == (n * ox) * (n * ox)) by (nonlinear_arith)
            requires sq(ox) == ox * ox;
        assert(n * n * sq(oy) == (n * oy) * (n * oy)) by (nonlinear_arith)
            requires sq(oy) == oy * oy;
        assert(n * n * sq(oz) == (n * oz) * (n * oz)) by (nonlinear_arith)
            requires sq(oz) == oz * oz;
        assert(n * n * (sq(ox) + sq(oy) + sq(oz))
            == n * n * sq(ox) + n * n * sq(oy) + n * n * sq(oz)) by (nonlinear_arith);
        assert((n * ox) * (n * ox) <= (ax * ax) * (len * len) + 2 * len * n * ax + n * n)
            by (nonlinear_arith)
            requires
                n * ox <= ax * len + n,
                -(ax * len + n) <= n * ox,
                0 <= ax,
                0 <= len,
                0 <= n;
        assert((n * oy) * (n * oy) <= (ay * ay) * (len * len) + 2 * len * n * ay + n * n)
            by (nonlinear_arith)
            requires
                n * oy <= ay * len + n,
                -(ay * len + n) <= n * oy,
                0 <= ay,
                0 <= len,
                0 <= n;
        assert((n * oz) * (n * oz) <= (az * az) * (len * len) + 2 * len * n * az + n * n)
            by (nonlinear_arith)
            requires
                n * oz <= az * len + n,
                -(az * len + n) <= n * oz,
                0 <= az,
                0 <= len,
                0 <= n;
        assert((ax * ax) * (len * len) + (ay * ay) * (len * len) + (az * az) * (len * len)
            == (len * len) * d2) by (nonlinear_arith)
            requires d2 == ax * ax + ay * ay + az * az;
        assert(2 * len * n * ax + 2 * len * n * ay + 2 * len * n * az
            == 2 * len * n * (ax + ay + az)) by (nonlinear_arith);
    }
    let s3 = sq(ox) + sq(oy) + sq(oz);
    assert(n * n * s3 <= n * n * sq(len + 3)) by (nonlinear_arith)
        requires
            n * n * s3 <= (len * len) * d2 + 2 * len * n * (ax + ay + az) + 3 * (n * n),
            d2 <= n * n + 2 * n,
            0 <= ax + ay + az,
            ax + ay + az <= 2 * (n + 1),
            0 <= len,
            len <= n,
            0 < n,
            sq(len + 3) == (len + 3) * (len + 3);
    assert(s3 <= sq(len + 3)) by (nonlinear_arith)
        requires
            0 < n,
            n * n * s3 <= n * n * sq(len + 3);
}

/// Upper covering of one rounded component: `n |o| <= |d| len + n`.
proof fn lemma_comp_upper(d: int, o: int, n: int, len: int)
    requires
        0 < n,
        0 <= len,
        -n <= d <= n,
        o == spec_div_away(d * len, n),
    ensures
        n * o <= (if d >= 0 { d } else { -d }) * len + n,
        -((if d >= 0 { d } else { -d }) * len + n) <= n * o,
{
    let a = d * len;
    crate::fixed::lemma_div_away_cover(a, n);
    if a >= 0 {
        vstd::arithmetic::div_mod::lemma_fundamental_div_mod(a + n - 1, n);
        let m = (a + n - 1) % n;
        assert(0 <= m < n);
        assert(n * o == a + n - 1 - m);
        assert(n * o <= a + n);
        if d >= 0 {
            assert(n * o >= a >= 0);
        } else {
            assert(a <= 0) by (nonlinear_arith)
                requires a == d * len, d < 0, 0 <= len;
            assert(a == 0);
            assert((-d) * len >= 0) by (nonlinear_arith)
                requires d < 0, 0 <= len;
        }
    } else {
        let q = crate::fixed::spec_div_ceil(-a, n);
        vstd::arithmetic::div_mod::lemma_fundamental_div_mod(-a + n - 1, n);
        let m = (-a + n - 1) % n;
        assert(0 <= m < n);
        assert(n * q == -a + n - 1 - m);
        assert(n * q <= -a + n);
        assert(n * o == -(n * q)) by (nonlinear_arith)
            requires o == -q;
        assert(d < 0) by (nonlinear_arith)
            requires a == d * len, a < 0, 0 <= len, -n <= d <= n;
        assert(-a == (-d) * len) by (nonlinear_arith)
            requires a == d * len;
        assert(n * o >= a - n);
        assert(n * o >= -((-d) * len + n));
        assert(n * o <= a) by {
            assert(n * q >= -a);
        }
        assert(a <= (if d >= 0 { d } else { -d }) * len + n) by (nonlinear_arith)
            requires a == d * len, d < 0, 0 <= len, 0 < n;
    }
}

/// Turn the sign-of-dividend covering facts into sign-of-`d` facts.
proof fn proof_offset_cover(d: int, o: int, n: int, len: int)
    requires
        0 < n,
        0 <= len,
        d * len >= 0 ==> n * o >= d * len,
        d * len < 0 ==> n * o <= d * len,
        o == spec_div_away(d * len, n),
    ensures
        d >= 0 ==> n * o >= d * len,
        d < 0 ==> n * o <= d * len,
{
    if d >= 0 {
        assert(d * len >= 0) by (nonlinear_arith)
            requires d >= 0, len >= 0;
    } else {
        if d * len >= 0 {
            assert(d * len <= 0) by (nonlinear_arith)
                requires d < 0, len >= 0;
            vstd::arithmetic::div_mod::lemma_basic_div(n - 1, n);
            assert(o == 0);
            assert(n * o == 0) by (nonlinear_arith)
                requires o == 0;
        }
    }
}

/// A component of a vector is bounded by the floor square root of the
/// full squared norm.
proof fn lemma_comp_le_norm(d: int, rest: int, n: int)
    requires
        0 <= rest,
        0 <= n,
        sq(d) + rest < (n + 1) * (n + 1),
    ensures
        -n <= d <= n,
{
    assert(d * d < (n + 1) * (n + 1) ==> -n <= d <= n) by (nonlinear_arith)
        requires 0 <= n;
}

/// The away-from-zero rounding makes the placed offset at least `len`
/// long: each scaled component covers its exact counterpart, and the
/// squared norm of the exact offset is at least `len * len`.
proof fn lemma_offset_lower(
    dx: int, dy: int, dz: int,
    ox: int, oy: int, oz: int,
    n: int, len: int, d2: int,
)
    requires
        0 < n,
        0 <= len,
        n * n <= d2,
        d2 == sq(dx) + sq(dy) + sq(dz),
        dx >= 0 ==> n * ox >= dx * len,
        dx < 0 ==> n * ox <= dx * len,
        dy >= 0 ==> n * oy >= dy * len,
        dy < 0 ==> n * oy <= dy * len,
        dz >= 0 ==> n * oz >= dz * len,
        dz < 0 ==> n * oz <= dz * len,
    ensures
        sq(ox) + sq(oy) + sq(oz) >= len * len,
{
    lemma_scaled_comp_sq(dx, ox, n, len);
    lemma_scaled_comp_sq(dy, oy, n, len);
    lemma_scaled_comp_sq(dz, oz, n, len);
    assert(n * n * (sq(ox) + sq(oy) + sq(oz))
        == n * n * sq(ox) + n * n * sq(oy) + n * n * sq(oz)) by (nonlinear_arith);
    assert(sq(dx) * (len * len) + sq(dy) * (len * len) + sq(dz) * (len * len)
        == d2 * (len * len)) by (nonlinear_arith)
        requires d2 == sq(dx) + sq(dy) + sq(dz);
    assert(d2 * (len * len) >= (n * n) * (len * len)) by (nonlinear_arith)
        requires n * n <= d2, 0 <= len;
    assert(n * n * (sq(ox) + sq(oy) + sq(oz)) >= (n * n) * (len * len));
    assert(sq(ox) + sq(oy) + sq(oz) >= len * len) by (nonlinear_arith)
        requires
            0 < n,
            n * n * (sq(ox) + sq(oy) + sq(oz)) >= (n * n) * (len * len);
}

/// Squaring a covering inequality: if `n * o` covers `d * len` on the
/// side of `d`'s sign, then `n^2 o^2 >= d^2 len^2`.
proof fn lemma_scaled_comp_sq(d: int, o: int, n: int, len: int)
    requires
        0 < n,
        0 <= len,
        d >= 0 ==> n * o >= d * len,
        d < 0 ==> n * o <= d * len,
    ensures
        n * n * sq(o) >= sq(d) * (len * len),
{
    if d >= 0 {
        assert(d * len >= 0) by (nonlinear_arith)
            requires d >= 0, len >= 0;
        assert((n * o) * (n * o) >= (d * len) * (d * len)) by (nonlinear_arith)
            requires n * o >= d * len, d * len >= 0;
    } else {
        assert(d * len <= 0) by (nonlinear_arith)
            requires d < 0, len >= 0;
        assert((n * o) * (n * o) >= (d * len) * (d * len)) by (nonlinear_arith)
            requires n * o <= d * len, d * len <= 0;
    }
    assert((n * o) * (n * o) == n * n * sq(o)) by (nonlinear_arith);
    assert((d * len) * (d * len) == sq(d) * (len * len)) by (nonlinear_arith);
}

} // verus!
