//! Rays and ray/obstacle intersection.
//!
//! A ray is an origin, a unit-scale direction and a parametric range
//! `[t_min, t_max]` in micro-units along the ray.  Spheres are
//! intersected with the standard quadratic solve, boxes with the slab
//! method; a world raycast returns the nearest forward hit.

use vstd::prelude::*;
use crate::vec3::Vec3;
use crate::vec3::V3;
use crate::vec3::sq;
use crate::vec3::spec_dot;
use crate::vec3::spec_normalize;
use crate::vec3::normalize;
use crate::vec3::normalize_wide;
use crate::vec3::dot;
use crate::vec3::dist;
use crate::vec3::spec_dist;
use crate::fixed::spec_div_away;
use crate::fixed::spec_div_trunc;
use crate::fixed::sqrt_floor;
use crate::fixed::div_away;
use crate::fixed::div_trunc;
use crate::fixed::isqrt_wide;
use crate::fixed::SCALE;
use crate::fixed::MAX_COORD;
use crate::fixed::MAX_POS;
use crate::obstacle::Obstacle;
use crate::obstacle::SphereObstacle;
use crate::obstacle::AabbObstacle;
use crate::obstacle::spec_aabb_normal;
use crate::world::ObstacleWorld;

verus! {

/// Default near cut-off of a ray, micro-units along the ray.
pub const RAY_T_MIN: i64 = 100;

/// Farthest parametric reach of any ray.
pub const RAY_T_LIMIT: i64 = 8_000_000_000;

/// Sentinel parameter for a slab the ray runs parallel to.
pub const RAY_T_PAR: i64 = 100_000_000_000_000_000;

/// A ray: origin, unit-scale direction, parametric range.
#[derive(Clone, Copy, Debug, PartialEq, Eq, Structural)]
pub struct Ray {
    /// Starting point.
    pub origin: Vec3,
    /// Direction, scaled to unit length (or zero when degenerate).
    pub direction: Vec3,
    /// Nearest accepted parameter.
    pub t_min: i64,
    /// Farthest accepted parameter.
    pub t_max: i64,
}

/// Mathematical view of a ray.
pub ghost struct RayV {
    pub origin: V3,
    pub direction: V3,
    pub t_min: int,
    pub t_max: int,
}

impl View for Ray {
    type V = RayV;

    open spec fn view(&self) -> RayV {
        RayV {
            origin: self.origin@,
            direction: self.direction@,
            t_min: self.t_min as int,
            t_max: self.t_max as int,
        }
    }
}

impl Ray {
    /// A bounded origin, a normalized (or zero) direction and an
    /// ordered range within the ray reach.
    pub open spec fn wf(self) -> bool {
        &&& self.origin@.bounded(MAX_POS as int)
        &&& self.direction@.bounded(SCALE as int)
        &&& (self.direction@ == (V3 { x: 0, y: 0, z: 0 }) || spec_dot(
            self.direction@, self.direction@) >= (SCALE as int) * (SCALE as int))
        &&& 0 <= self.t_min <= self.t_max <= RAY_T_LIMIT
    }

    /// A ray from `origin` along `direction`, probing the full reach.
    pub fn new(origin: Vec3, direction: Vec3) -> (r: Ray)
        requires
            origin@.bounded(MAX_POS as int),
            direction@.bounded(MAX_COORD as int),
        ensures
            r.origin == origin,
            r.direction@ == spec_normalize(direction@),
            r.t_min == RAY_T_MIN,
            r.t_max == RAY_T_LIMIT,
            r.wf(),
    {
        Ray {
            origin,
            direction: normalize(direction),
            t_min: RAY_T_MIN,
            t_max: RAY_T_LIMIT,
        }
    }

    /// A ray with an explicit parametric range.
    pub fn with_range(origin: Vec3, direction: Vec3, t_min: i64, t_max: i64) -> (r: Ray)
        requires
            origin@.bounded(MAX_POS as int),
            direction@.bounded(MAX_COORD as int),
            0 <= t_min <= t_max <= RAY_T_LIMIT,
        ensures
            r.origin == origin,
            r.direction@ == spec_normalize(direction@),
            r.t_min == t_min,
            r.t_max == t_max,
            r.wf(),
    {
        Ray { origin, direction: normalize(direction), t_min, t_max }
    }

    /// The point at parameter `t` along the ray.
    pub fn at(&self, t: i64) -> (r: Vec3)
        requires
            self.wf(),
            0 <= t <= RAY_T_LIMIT,
        ensures
            r@ == spec_ray_at(self@, t as int),
            r@.bounded(MAX_POS as int + RAY_T_LIMIT as int),
    {
        proof {
            lemma_at_comp(self.direction@.x, t as int);
            lemma_at_comp(self.direction@.y, t as int);
            lemma_at_comp(self.direction@.z, t as int);
        }
        let ox = div_away(self.direction.x * t, SCALE);
        let oy = div_away(self.direction.y * t, SCALE);
        let oz = div_away(self.direction.z * t, SCALE);
        proof {
            crate::fixed::lemma_div_away_le(
                (self.direction@.x as int) * (t as int), SCALE as int, RAY_T_LIMIT as int);
            crate::fixed::lemma_div_away_le(
                (self.direction@.y as int) * (t as int), SCALE as int, RAY_T_LIMIT as int);
            crate::fixed::lemma_div_away_le(
                (self.direction@.z as int) * (t as int), SCALE as int, RAY_T_LIMIT as int);
        }
        Vec3 { x: self.origin.x + ox, y: self.origin.y + oy, z: self.origin.z + oz }
    }

    /// The ray from one point toward another, ranged to end at the
    /// second point; a degenerate pair yields an empty-range vertical
    /// ray.
    pub fn between_points(from: Vec3, to: Vec3) -> (r: Ray)
        requires
            from@.bounded(MAX_POS as int),
            to@.bounded(MAX_POS as int),
        ensures
            spec_dist(from@, to@) < 100 ==> r == (Ray {
                origin: from,
                direction: Vec3 { x: 0, y: SCALE, z: 0 },
                t_min: 0,
                t_max: 0,
            }),
            spec_dist(from@, to@) >= 100 ==> {
                &&& r.origin == from
                &&& r.direction@ == spec_normalize(
                    V3 { x: to@.x - from@.x, y: to@.y - from@.y, z: to@.z - from@.z })
                &&& r.t_min == RAY_T_MIN
                &&& r.t_max == spec_dist(from@, to@)
            },
            r.wf(),
    {
        let length = dist(from, to);
        if length < 100 {
            let r = Ray {
                origin: from,
                direction: Vec3 { x: 0, y: SCALE, z: 0 },
                t_min: 0,
                t_max: 0,
            };
            proof {
                let dvec = r.direction@;
                assert(dvec.x * dvec.x + dvec.y * dvec.y + dvec.z * dvec.z
                    == (SCALE as int) * (SCALE as int)) by (nonlinear_arith)
                    requires dvec.x == 0, dvec.y == SCALE as int, dvec.z == 0;
                assert(spec_dot(dvec, dvec)
                    == dvec.x * dvec.x + dvec.y * dvec.y + dvec.z * dvec.z);
            }
            r
        } else {
            let d = Vec3 { x: to.x - from.x, y: to.y - from.y, z: to.z - from.z };
            Ray { origin: from, direction: normalize_wide(d), t_min: RAY_T_MIN, t_max: length }
        }
    }
}

/// One component of a unit direction scaled by a ray parameter fits in
/// the safe multiplication range.
proof fn lemma_at_comp(d: int, t: int)
    requires
        -(SCALE as int) <= d <= SCALE as int,
        0 <= t <= RAY_T_LIMIT as int,
    ensures
        -((SCALE as int) * (RAY_T_LIMIT as int)) <= d * t <= (SCALE as int) * (
        RAY_T_LIMIT as int),
        -((SCALE as int) * (RAY_T_LIMIT as int)) <= d * t,
{
    assert(-(1_000_000int * 8_000_000_000int) <= d * t
        && d * t <= 1_000_000int * 8_000_000_000int) by (nonlinear_arith)
        requires -1_000_000 <= d <= 1_000_000, 0 <= t <= 8_000_000_000;
}

/// The point at parameter `t` along a ray, over views.
pub open spec fn spec_ray_at(rv: RayV, t: int) -> V3 {
    V3 {
        x: rv.origin.x + spec_div_away(rv.direction.x * t, SCALE as int),
        y: rv.origin.y + spec_div_away(rv.direction.y * t, SCALE as int),
        z: rv.origin.z + spec_div_away(rv.direction.z * t, SCALE as int),
    }
}

/// A ray hit: the parameter, the point and the outward surface normal.
#[derive(Clone, Copy, Debug, PartialEq, Eq, Structural)]
pub struct RayHit {
    /// Parameter along the ray, micro-units.
    pub t: i64,
    /// The hit point.
    pub point: Vec3,
    /// Outward unit surface normal at the hit point.
    pub normal: Vec3,
}

/// Mathematical view of a hit.
pub ghost struct RayHitV {
    pub t: int,
    pub point: V3,
    pub normal: V3,
}

impl View for RayHit {
    type V = RayHitV;

    open spec fn view(&self) -> RayHitV {
        RayHitV { t: self.t as int, point: self.point@, normal: self.normal@ }
    }
}

/// The nearest forward sphere hit: the standard quadratic solve over
/// views.  `None` when the discriminant is negative, the direction is
/// degenerate, or both roots fall outside the range.
pub open spec fn spec_sphere_ray(s: SphereObstacle, rv: RayV) -> Option<RayHitV> {
    let a = spec_dot(rv.direction, rv.direction);
    if a <= 0 {
        None
    } else {
        let oc = V3 {
            x: rv.origin.x - s.center@.x,
            y: rv.origin.y - s.center@.y,
            z: rv.origin.z - s.center@.z,
        };
        let b = 2 * spec_dot(oc, rv.direction);
        let c = spec_dot(oc, oc) - sq(s.radius as int);
        let disc = b * b - 4 * a * c;
        if disc < 0 {
            None
        } else {
            let sd = sqrt_floor(disc);
            let t1 = spec_div_trunc((-b - sd) * (SCALE as int), 2 * a);
            let t2 = spec_div_trunc((-b + sd) * (SCALE as int), 2 * a);
            if rv.t_min < t1 && t1 < rv.t_max {
                Some(spec_sphere_hit(s, rv, t1))
            } else if rv.t_min < t2 && t2 < rv.t_max {
                Some(spec_sphere_hit(s, rv, t2))
            } else {
                None
            }
        }
    }
}

/// The hit record of a sphere at parameter `t`.
pub open spec fn spec_sphere_hit(s: SphereObstacle, rv: RayV, t: int) -> RayHitV {
    let point = spec_ray_at(rv, t);
    RayHitV {
        t,
        point,
        normal: spec_normalize(
            V3 {
                x: point.x - s.center@.x,
                y: point.y - s.center@.y,
                z: point.z - s.center@.z,
            },
        ),
    }
}

impl SphereObstacle {
    /// Nearest forward intersection of `ray` with the sphere.
    pub fn ray_intersect(&self, ray: &Ray) -> (r: Option<RayHit>)
        requires
            self.wf(),
            ray.wf(),
        ensures
            r is None ==> spec_sphere_ray(*self, ray@) is None,
            r matches Some(h) ==> spec_sphere_ray(*self, ray@) == Some(h@)
                && ray.t_min < h.t < ray.t_max,
    {
        let a = dot(ray.direction, ray.direction);
        proof {
            let dv = ray.direction@;
            assert(0 <= dv.x * dv.x + dv.y * dv.y + dv.z * dv.z
                && dv.x * dv.x + dv.y * dv.y + dv.z * dv.z <= 3_000_000_000_000int)
                by (nonlinear_arith)
                requires -1_000_000 <= dv.x <= 1_000_000, -1_000_000 <= dv.y <= 1_000_000,
                    -1_000_000 <= dv.z <= 1_000_000;
            assert(spec_dot(dv, dv) == dv.x * dv.x + dv.y * dv.y + dv.z * dv.z);
        }
        if a <= 0 {
            return None;
        }
        let oc = Vec3 {
            x: ray.origin.x - self.center.x,
            y: ray.origin.y - self.center.y,
            z: ray.origin.z - self.center.z,
        };
        let b0 = dot(oc, ray.direction);
        proof {
            let ov = oc@;
            let dv = ray.direction@;
            assert(-2_200_000_000_000_000int <= ov.x * dv.x + ov.y * dv.y + ov.z * dv.z
                && ov.x * dv.x + ov.y * dv.y + ov.z * dv.z <= 2_200_000_000_000_000int)
                by (nonlinear_arith)
                requires
                    -700_000_000 <= ov.x <= 700_000_000,
                    -700_000_000 <= ov.y <= 700_000_000,
                    -700_000_000 <= ov.z <= 700_000_000,
                    -1_000_000 <= dv.x <= 1_000_000,
                    -1_000_000 <= dv.y <= 1_000_000,
                    -1_000_000 <= dv.z <= 1_000_000;
            assert(spec_dot(ov, dv) == ov.x * dv.x + ov.y * dv.y + ov.z * dv.z);
            assert(0 <= ov.x * ov.x + ov.y * ov.y + ov.z * ov.z
                && ov.x * ov.x + ov.y * ov.y + ov.z * ov.z <= 1_500_000_000_000_000_000int)
                by (nonlinear_arith)
                requires
                    -700_000_000 <= ov.x <= 700_000_000,
                    -700_000_000 <= ov.y <= 700_000_000,
                    -700_000_000 <= ov.z <= 700_000_000;
            assert(spec_dot(ov, ov) == ov.x * ov.x + ov.y * ov.y + ov.z * ov.z);
            assert(0 <= (self.radius as int) * (self.radius as int)
                && (self.radius as int) * (self.radius as int) <= 10_000_000_000_000_000int)
                by (nonlinear_arith)
                requires 0 <= self.radius <= 100_000_000;
        }
        let b = 2 * b0;
        let c = dot(oc, oc) - self.radius * self.radius;
        proof {
            assert((b as i128) * (b as i128) == (b as int) * (b as int)) by (nonlinear_arith);
            assert(0 <= (b as int) * (b as int)
                && (b as int) * (b as int) <= 20_000_000_000_000_000_000_000_000_000_000int)
                by (nonlinear_arith)
                requires -4_400_000_000_000_000 <= b <= 4_400_000_000_000_000;
            assert((4 as i128) * (a as i128) * (c as i128) == 4 * (a as int) * (c as int))
                by (nonlinear_arith);
            assert(-18_000_000_000_000_000_000_000_000_000_000
                <= 4 * (a as int) * (c as int)
                && 4 * (a as int) * (c as int) <= 18_000_000_000_000_000_000_000_000_000_000)
                by (nonlinear_arith)
                requires
                    0 <= a <= 3_000_000_000_000,
                    -1_500_000_000_000_000_000 <= c <= 1_500_000_000_000_000_000;
        }
        let disc: i128 = (b as i128) * (b as i128) - 4 * (a as i128) * (c as i128);
        if disc < 0 {
            return None;
        }
        let sd = isqrt_wide(disc);
        let t1 = div_trunc_wide(((-b as i128) - (sd as i128)) * (SCALE as i128),
            2 * (a as i128));
        proof {
            assert((((-b as i128) - (sd as i128)) * (SCALE as i128)) as int
                == (-(b as int) - (sd as int)) * (SCALE as int)) by (nonlinear_arith);
            assert((((-b as i128) + (sd as i128)) * (SCALE as i128)) as int
                == (-(b as int) + (sd as int)) * (SCALE as int)) by (nonlinear_arith);
        }
        if (ray.t_min as i128) < t1 && t1 < (ray.t_max as i128) {
            let t = t1 as i64;
            let point = ray.at(t);
            let normal = normal_from_center(self.center, point);
            return Some(RayHit { t, point, normal });
        }
        let t2 = div_trunc_wide(((-b as i128) + (sd as i128)) * (SCALE as i128),
            2 * (a as i128));
        if (ray.t_min as i128) < t2 && t2 < (ray.t_max as i128) {
            let t = t2 as i64;
            let point = ray.at(t);
            let normal = normal_from_center(self.center, point);
            return Some(RayHit { t, point, normal });
        }
        None
    }
}

/// Normal of a sphere at a (possibly distant) point.
fn normal_from_center(center: Vec3, point: Vec3) -> (r: Vec3)
    requires
        center@.bounded(MAX_POS as int),
        point@.bounded(MAX_POS as int + RAY_T_LIMIT as int),
    ensures
        r@ == spec_normalize(
            V3 { x: point@.x - center@.x, y: point@.y - center@.y, z: point@.z - center@.z }),
{
    let d = Vec3 {
        x: point.x - center.x,
        y: point.y - center.y,
        z: point.z - center.z,
    };
    normalize_wide(d)
}

/// Truncating division over the wide range used by ray parameters.
fn div_trunc_wide(a: i128, b: i128) -> (r: i128)
    requires
        0 < b,
        -200_000_000_000_000_000_000_000 <= a <= 200_000_000_000_000_000_000_000,
    ensures
        r == spec_div_trunc(a as int, b as int),
        a >= 0 ==> 0 <= r <= a,
        a < 0 ==> a <= r <= 0,
{
    proof {
        if a >= 0 {
            vstd::arithmetic::div_mod::lemma_div_pos_is_pos(a as int, b as int);
            vstd::arithmetic::div_mod::lemma_div_nonincreasing(a as int, b as int);
        } else {
            vstd::arithmetic::div_mod::lemma_div_pos_is_pos(-(a as int), b as int);
            vstd::arithmetic::div_mod::lemma_div_nonincreasing(-(a as int), b as int);
        }
    }
    if a >= 0 {
        a / b
    } else {
        -((-a) / b)
    }
}

/// The slab parameters of one axis: entry and exit (unordered), with
/// the parallel sentinel when the direction component is negligible.
pub open spec fn spec_slab(lo: int, hi: int, o: int, d: int) -> (int, int) {
    if d > 100 || d < -100 {
        (spec_div_signed((lo - o) * (SCALE as int), d), spec_div_signed(
            (hi - o) * (SCALE as int), d))
    } else {
        (spec_par_t(lo - o), spec_par_t(hi - o))
    }
}

/// Truncating division by a signed divisor.
pub open spec fn spec_div_signed(a: int, d: int) -> int {
    if d > 0 {
        spec_div_trunc(a, d)
    } else {
        spec_div_trunc(-a, -d)
    }
}

/// The sentinel parameter of a parallel slab.
pub open spec fn spec_par_t(delta: int) -> int {
    if delta > 0 {
        RAY_T_PAR as int
    } else if delta < 0 {
        -(RAY_T_PAR as int)
    } else {
        0
    }
}

/// The smaller of two values.
pub open spec fn spec_imin(a: int, b: int) -> int {
    if a <= b {
        a
    } else {
        b
    }
}

/// The larger of two values.
pub open spec fn spec_imax(a: int, b: int) -> int {
    if a >= b {
        a
    } else {
        b
    }
}

/// The nearest forward box hit by the slab method, over views.
pub open spec fn spec_aabb_ray(b: AabbObstacle, rv: RayV) -> Option<RayHitV> {
    let sx = spec_slab(b.min@.x, b.max@.x, rv.origin.x, rv.direction.x);
    let sy = spec_slab(b.min@.y, b.max@.y, rv.origin.y, rv.direction.y);
    let sz = spec_slab(b.min@.z, b.max@.z, rv.origin.z, rv.direction.z);
    let t_near = spec_imax(
        spec_imin(sx.0, sx.1), spec_imax(spec_imin(sy.0, sy.1), spec_imin(sz.0, sz.1)));
    let t_far = spec_imin(
        spec_imax(sx.0, sx.1), spec_imin(spec_imax(sy.0, sy.1), spec_imax(sz.0, sz.1)));
    if t_near > t_far || t_far < rv.t_min {
        None
    } else {
        let t = if t_near > rv.t_min { t_near } else { t_far };
        if t > rv.t_max {
            None
        } else {
            let point = spec_ray_at(rv, t);
            Some(RayHitV { t, point, normal: spec_aabb_normal(b, point) })
        }
    }
}

impl AabbObstacle {
    /// Nearest forward intersection of `ray` with the box.
    pub fn ray_intersect(&self, ray: &Ray) -> (r: Option<RayHit>)
        requires
            self.wf(),
            ray.wf(),
        ensures
            r is None ==> spec_aabb_ray(*self, ray@) is None,
            r matches Some(h) ==> spec_aabb_ray(*self, ray@) == Some(h@)
                && ray.t_min <= h.t <= ray.t_max,
    {
        let (x0, x1) = slab(self.min.x, self.max.x, ray.origin.x, ray.direction.x);
        let (y0, y1) = slab(self.min.y, self.max.y, ray.origin.y, ray.direction.y);
        let (z0, z1) = slab(self.min.z, self.max.z, ray.origin.z, ray.direction.z);
        let lx = if x0 <= x1 { x0 } else { x1 };
        let hx = if x0 >= x1 { x0 } else { x1 };
        let ly = if y0 <= y1 { y0 } else { y1 };
        let hy = if y0 >= y1 { y0 } else { y1 };
        let lz = if z0 <= z1 { z0 } else { z1 };
        let hz = if z0 >= z1 { z0 } else { z1 };
        let nyz = if ly >= lz { ly } else { lz };
        let t_near = if lx >= nyz { lx } else { nyz };
        let fyz = if hy <= hz { hy } else { hz };
        let t_far = if hx <= fyz { hx } else { fyz };
        if t_near > t_far || t_far < ray.t_min {
            return None;
        }
        let t = if t_near > ray.t_min { t_near } else { t_far };
        if t > ray.t_max {
            return None;
        }
        let point = ray.at(t);
        let normal = self.surface_normal(point);
        Some(RayHit { t, point, normal })
    }
}

/// Executable slab parameters for one axis.
fn slab(lo: i64, hi: i64, o: i64, d: i64) -> (r: (i64, i64))
    requires
        -400_000_000 <= lo <= 400_000_000,
        -400_000_000 <= hi <= 400_000_000,
        -600_000_000 <= o <= 600_000_000,
        -(SCALE) <= d <= SCALE,
    ensures
        (r.0 as int, r.1 as int) == spec_slab(lo as int, hi as int, o as int, d as int),
        -RAY_T_PAR <= r.0 <= RAY_T_PAR,
        -RAY_T_PAR <= r.1 <= RAY_T_PAR,
{
    if d > 100 || d < -100 {
        proof {
            assert(-1_000_000_000_000_000int <= ((lo as int) - (o as int)) * (SCALE as int)
                <= 1_000_000_000_000_000int) by (nonlinear_arith)
                requires -1_000_000_000 <= (lo as int) - (o as int) <= 1_000_000_000;
            assert(-1_000_000_000_000_000int <= ((hi as int) - (o as int)) * (SCALE as int)
                <= 1_000_000_000_000_000int) by (nonlinear_arith)
                requires -1_000_000_000 <= (hi as int) - (o as int) <= 1_000_000_000;
        }
        let t0 = div_signed((lo - o) * SCALE, d);
        let t1 = div_signed((hi - o) * SCALE, d);
        (t0, t1)
    } else {
        let t0 = if lo - o > 0 {
            RAY_T_PAR
        } else if lo - o < 0 {
            -RAY_T_PAR
        } else {
            0
        };
        let t1 = if hi - o > 0 {
            RAY_T_PAR
        } else if hi - o < 0 {
            -RAY_T_PAR
        } else {
            0
        };
        (t0, t1)
    }
}

/// Truncating division by a nonzero signed divisor.
fn div_signed(a: i64, d: i64) -> (r: i64)
    requires
        d > 100 || d < -100,
        -(SCALE) <= d <= SCALE,
        -1_000_000_000_000_000 <= a <= 1_000_000_000_000_000,
    ensures
        r == spec_div_signed(a as int, d as int),
        -RAY_T_PAR <= r <= RAY_T_PAR,
{
    let r = if d > 0 {
        div_trunc(a, d)
    } else {
        div_trunc(-a, -d)
    };
    proof {
        assert(-RAY_T_PAR <= r <= RAY_T_PAR);
    }
    r
}

impl Obstacle {
    /// Nearest forward intersection of `ray` with the obstacle.
    pub fn ray_intersect(&self, ray: &Ray) -> (r: Option<RayHit>)
        requires
            self.wf(),
            ray.wf(),
        ensures
            r is None ==> spec_obstacle_ray(*self, ray@) is None,
            r matches Some(h) ==> spec_obstacle_ray(*self, ray@) == Some(h@)
                && ray.t_min <= h.t <= ray.t_max,
    {
        match self {
            Obstacle::Sphere(s) => s.ray_intersect(ray),
            Obstacle::Aabb(b) => b.ray_intersect(ray),
        }
    }
}

/// Nearest forward hit of an obstacle, over views.
pub open spec fn spec_obstacle_ray(o: Obstacle, rv: RayV) -> Option<RayHitV> {
    match o {
        Obstacle::Sphere(s) => spec_sphere_ray(s, rv),
        Obstacle::Aabb(b) => spec_aabb_ray(b, rv),
    }
}

/// The first (by index) among the nearest hits over the first `k`
/// obstacles; a strictly nearer later hit wins.
pub open spec fn spec_world_raycast(obs: Seq<Obstacle>, rv: RayV, k: int) -> Option<(
    int,
    RayHitV,
)>
    decreases k,
{
    if k <= 0 {
        None
    } else {
        let prev = spec_world_raycast(obs, rv, k - 1);
        match spec_obstacle_ray(obs[k - 1], rv) {
            None => prev,
            Some(h) => match prev {
                None => Some((k - 1, h)),
                Some((pi, ph)) => if h.t < ph.t {
                    Some((k - 1, h))
                } else {
                    prev
                },
            },
        }
    }
}

impl ObstacleWorld {
    /// The nearest forward hit among all obstacles, with the index of
    /// the obstacle hit; ties keep the obstacle added first.
    pub fn raycast(&self, ray: &Ray) -> (r: Option<(usize, RayHit)>)
        requires
            self.wf(),
            ray.wf(),
        ensures
            r is None ==> spec_world_raycast(
                self.obstacles@, ray@, self.obstacles@.len() as int) is None,
            r matches Some((i, h)) ==> spec_world_raycast(
                self.obstacles@, ray@, self.obstacles@.len() as int) == Some((i as int, h@)),
    {
        let mut closest: Option<(usize, RayHit)> = None;
        let mut i: usize = 0;
        while i < self.obstacles.len()
            invariant
                0 <= i <= self.obstacles@.len(),
                self.wf(),
                ray.wf(),
                closest is None ==> spec_world_raycast(self.obstacles@, ray@, i as int)
                    is None,
                closest matches Some((ci, ch)) ==> spec_world_raycast(
                    self.obstacles@, ray@, i as int) == Some((ci as int, ch@)) && ci < i,
            decreases self.obstacles@.len() - i,
        {
            let hit = self.obstacles[i].ray_intersect(ray);
            match hit {
                Some(h) => {
                    match &closest {
                        None => {
                            closest = Some((i, h));
                        },
                        Some((_, prev_hit)) => {
                            if h.t < prev_hit.t {
                                closest = Some((i, h));
                            }
                        },
                    }
                },
                None => {},
            }
            i = i + 1;
        }
        closest
    }
}

} // verus!
