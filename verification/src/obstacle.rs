//! Solid obstacles: spheres and axis-aligned boxes.
//!
//! Every obstacle answers the same queries: point containment, signed
//! distance (negative inside, zero on the surface, positive outside),
//! nearest surface point, outward surface normal, and a push-out that
//! moves a point to at least a requested margin outside the surface.
//!
//! The box works directly on its `min`/`max` corners, so its signed
//! distance is the exact integer box distance with no halving error;
//! push-out along an axis face therefore lands exactly `margin` outside.

use vstd::prelude::*;
use crate::vec3::Vec3;
use crate::vec3::V3;
use crate::vec3::sq;
use crate::vec3::dist_sq;
use crate::vec3::dist;
use crate::vec3::spec_dist_sq;
use crate::vec3::spec_dist;
use crate::vec3::spec_offset_from;
use crate::vec3::offset_from;
use crate::fixed::sqrt_floor;
use crate::fixed::isqrt;
use crate::fixed::lemma_sqrt_square;
use crate::fixed::lemma_sqrt_monotone;
use crate::fixed::SCALE;
use crate::fixed::MAX_ANCHOR;
use crate::fixed::MAX_POS;
use crate::fixed::MAX_RADIUS;
use crate::fixed::MAX_MARGIN;

verus! {

/// Bound on a box corner coordinate: a centre within `MAX_ANCHOR` plus
/// a half-extent within `MAX_RADIUS`.
pub const MAX_CORNER: i64 = 300_000_000;

/// Minimum box thickness per axis (twice the degenerate length).
pub const MIN_THICKNESS: i64 = 200;

/// Half of a possibly negative value, rounded toward zero.
pub open spec fn spec_half(v: int) -> int {
    if v >= 0 {
        v / 2
    } else {
        -((-v) / 2)
    }
}

/// Executable half, rounded toward zero.
fn half(v: i64) -> (r: i64)
    requires
        i64::MIN < v,
    ensures
        r == spec_half(v as int),
        v >= 0 ==> 0 <= r <= v,
        v < 0 ==> v <= r <= 0,
{
    proof {
        if v >= 0 {
            vstd::arithmetic::div_mod::lemma_div_pos_is_pos(v as int, 2);
            vstd::arithmetic::div_mod::lemma_div_nonincreasing(v as int, 2);
        } else {
            vstd::arithmetic::div_mod::lemma_div_pos_is_pos(-(v as int), 2);
            vstd::arithmetic::div_mod::lemma_div_nonincreasing(-(v as int), 2);
        }
    }
    if v >= 0 {
        v / 2
    } else {
        -((-v) / 2)
    }
}

/// What the renderer needs to draw an obstacle.
#[derive(Clone, Copy, Debug, PartialEq, Eq, Structural)]
pub enum ObstacleShape {
    /// A sphere by centre and radius.
    Sphere { center: Vec3, radius: i64 },
    /// A box by centre and half-extents.
    Aabb { center: Vec3, half_extents: Vec3 },
}

/// A solid sphere.
#[derive(Clone, Copy, Debug, PartialEq, Eq, Structural)]
pub struct SphereObstacle {
    /// Centre of the sphere.
    pub center: Vec3,
    /// Radius in micro-units.
    pub radius: i64,
}

/// Signed distance from a point to a sphere's surface.
pub open spec fn spec_sphere_sd(s: SphereObstacle, p: V3) -> int {
    spec_dist(p, s.center@) - s.radius
}

impl SphereObstacle {
    /// An anchored centre and a radius within `MAX_RADIUS`.
    pub open spec fn wf(self) -> bool {
        &&& self.center@.bounded(MAX_ANCHOR as int)
        &&& 0 <= self.radius <= MAX_RADIUS
    }

    /// Build a sphere obstacle.
    pub fn new(center: Vec3, radius: i64) -> (r: SphereObstacle)
        requires
            center@.bounded(MAX_ANCHOR as int),
            0 <= radius <= MAX_RADIUS,
        ensures
            r.center == center,
            r.radius == radius,
            r.wf(),
    {
        SphereObstacle { center, radius }
    }

    /// Whether `point` lies inside or on the sphere.
    pub fn contains_point(&self, point: Vec3) -> (r: bool)
        requires
            self.wf(),
            point@.bounded(MAX_POS as int),
        ensures
            r == (spec_dist_sq(point@, self.center@) <= sq(self.radius as int)),
    {
        proof {
            assert(sq(self.radius as int) == (self.radius as int) * (self.radius as int));
            assert(0 <= (self.radius as int) * (self.radius as int)
                && (self.radius as int) * (self.radius as int)
                    <= 100_000_000i64 * 100_000_000i64) by (nonlinear_arith)
                requires 0 <= self.radius <= 100_000_000;
        }
        dist_sq(point, self.center) <= self.radius * self.radius
    }

    /// Signed distance: negative inside, zero on the surface.
    pub fn signed_distance(&self, point: Vec3) -> (r: i64)
        requires
            self.wf(),
            point@.bounded(MAX_POS as int),
        ensures
            r == spec_sphere_sd(*self, point@),
    {
        dist(point, self.center) - self.radius
    }

    /// The nearest point of the surface (straight up when the query sits
    /// on the centre).
    pub fn closest_surface_point(&self, point: Vec3) -> (r: Vec3)
        requires
            self.wf(),
            point@.bounded(MAX_POS as int),
        ensures
            r@ == spec_offset_from(self.center@, point@, self.radius as int),
            r@.bounded(MAX_ANCHOR as int + MAX_RADIUS as int),
    {
        offset_from(self.center, point, self.radius)
    }

    /// Outward unit normal: the normalized direction from the centre.
    pub fn surface_normal(&self, point: Vec3) -> (r: Vec3)
        requires
            self.wf(),
            point@.bounded(MAX_POS as int),
        ensures
            r@ == crate::vec3::spec_normalize(
                V3 {
                    x: point@.x - self.center@.x,
                    y: point@.y - self.center@.y,
                    z: point@.z - self.center@.z,
                },
            ),
            r@.bounded(SCALE as int),
    {
        let d = Vec3 {
            x: point.x - self.center.x,
            y: point.y - self.center.y,
            z: point.z - self.center.z,
        };
        crate::vec3::normalize(d)
    }

    /// Push `point` to at least `margin` outside the surface: it lands
    /// on the ray from the centre through the point (straight up when
    /// degenerate), never nearer than `radius + margin` to the centre.
    pub fn push_out(&self, point: Vec3, margin: i64) -> (r: Vec3)
        requires
            self.wf(),
            point@.bounded(MAX_POS as int),
            0 <= margin <= MAX_MARGIN,
        ensures
            r@ == spec_offset_from(self.center@, point@, self.radius + margin),
            spec_sphere_sd(*self, r@) >= margin,
            r@.bounded(MAX_ANCHOR as int + MAX_RADIUS as int + MAX_MARGIN as int),
    {
        let len = self.radius + margin;
        let r = offset_from(self.center, point, len);
        proof {
            let d2 = spec_dist_sq(r@, self.center@);
            assert(d2 >= (len as int) * (len as int));
            lemma_sqrt_square(len as int);
            lemma_sqrt_monotone((len as int) * (len as int), d2);
            assert(spec_dist(r@, self.center@) >= len);
        }
        r
    }

    /// The sphere's centre.
    pub fn center(&self) -> (r: Vec3)
        ensures
            r == self.center,
    {
        self.center
    }

    /// Descriptor for rendering.
    pub fn render_shape(&self) -> (r: ObstacleShape)
        ensures
            r == (ObstacleShape::Sphere { center: self.center, radius: self.radius }),
    {
        ObstacleShape::Sphere { center: self.center, radius: self.radius }
    }
}

/// A solid axis-aligned box given by two opposite corners.
#[derive(Clone, Copy, Debug, PartialEq, Eq, Structural)]
pub struct AabbObstacle {
    /// Componentwise smaller corner.
    pub min: Vec3,
    /// Componentwise larger corner.
    pub max: Vec3,
}

/// Per-axis distance outside the slab: positive outside, negative inside.
pub open spec fn spec_axis_excess(lo: int, hi: int, v: int) -> int {
    if lo - v >= v - hi {
        lo - v
    } else {
        v - hi
    }
}

/// The largest of three values.
pub open spec fn spec_max3(a: int, b: int, c: int) -> int {
    if a >= b && a >= c {
        a
    } else if b >= c {
        b
    } else {
        c
    }
}

/// Positive part.
pub open spec fn spec_pos(v: int) -> int {
    if v > 0 {
        v
    } else {
        0
    }
}

/// Exact integer signed distance to the box surface: the length of the
/// componentwise positive excess, plus the (negative) largest excess
/// when the point is inside.
pub open spec fn spec_aabb_sd(b: AabbObstacle, p: V3) -> int {
    let qx = spec_axis_excess(b.min@.x, b.max@.x, p.x);
    let qy = spec_axis_excess(b.min@.y, b.max@.y, p.y);
    let qz = spec_axis_excess(b.min@.z, b.max@.z, p.z);
    let outside = sqrt_floor(sq(spec_pos(qx)) + sq(spec_pos(qy)) + sq(spec_pos(qz)));
    let m = spec_max3(qx, qy, qz);
    outside + (if m < 0 { m } else { 0 })
}

/// Whether `p` lies in the closed box.
pub open spec fn spec_aabb_contains(b: AabbObstacle, p: V3) -> bool {
    &&& b.min@.x <= p.x <= b.max@.x
    &&& b.min@.y <= p.y <= b.max@.y
    &&& b.min@.z <= p.z <= b.max@.z
}

impl AabbObstacle {
    /// Ordered corners within `MAX_CORNER`, each axis at least
    /// `MIN_THICKNESS` thick.
    pub open spec fn wf(self) -> bool {
        &&& self.min@.bounded(MAX_CORNER as int)
        &&& self.max@.bounded(MAX_CORNER as int)
        &&& self.min@.x + MIN_THICKNESS <= self.max@.x
        &&& self.min@.y + MIN_THICKNESS <= self.max@.y
        &&& self.min@.z + MIN_THICKNESS <= self.max@.z
    }

    /// Build a box from its two corners.
    pub fn new(min: Vec3, max: Vec3) -> (r: AabbObstacle)
        requires
            min@.bounded(MAX_CORNER as int),
            max@.bounded(MAX_CORNER as int),
            min@.x + MIN_THICKNESS <= max@.x,
            min@.y + MIN_THICKNESS <= max@.y,
            min@.z + MIN_THICKNESS <= max@.z,
        ensures
            r.min == min,
            r.max == max,
            r.wf(),
    {
        AabbObstacle { min, max }
    }

    /// Build a box from a centre and half-extents.
    pub fn from_center_half_extents(center: Vec3, half_extents: Vec3) -> (r: AabbObstacle)
        requires
            center@.bounded(MAX_ANCHOR as int),
            half_extents@.bounded(MAX_RADIUS as int),
            100 <= half_extents@.x,
            100 <= half_extents@.y,
            100 <= half_extents@.z,
        ensures
            r.min@.x == center@.x - half_extents@.x,
            r.min@.y == center@.y - half_extents@.y,
            r.min@.z == center@.z - half_extents@.z,
            r.max@.x == center@.x + half_extents@.x,
            r.max@.y == center@.y + half_extents@.y,
            r.max@.z == center@.z + half_extents@.z,
            r.wf(),
    {
        AabbObstacle {
            min: Vec3 {
                x: center.x - half_extents.x,
                y: center.y - half_extents.y,
                z: center.z - half_extents.z,
            },
            max: Vec3 {
                x: center.x + half_extents.x,
                y: center.y + half_extents.y,
                z: center.z + half_extents.z,
            },
        }
    }

    /// Half-extents, rounded toward zero when an axis is odd.
    pub fn half_extents(&self) -> (r: Vec3)
        requires
            self.wf(),
        ensures
            r@.x == spec_half(self.max@.x - self.min@.x),
            r@.y == spec_half(self.max@.y - self.min@.y),
            r@.z == spec_half(self.max@.z - self.min@.z),
    {
        Vec3 {
            x: half(self.max.x - self.min.x),
            y: half(self.max.y - self.min.y),
            z: half(self.max.z - self.min.z),
        }
    }

    /// Whether `point` lies inside or on the box.
    pub fn contains_point(&self, point: Vec3) -> (r: bool)
        ensures
            r == spec_aabb_contains(*self, point@),
    {
        point.x >= self.min.x && point.x <= self.max.x && point.y >= self.min.y && point.y
            <= self.max.y && point.z >= self.min.z && point.z <= self.max.z
    }

    /// Exact signed distance: negative inside, zero on the surface.
    pub fn signed_distance(&self, point: Vec3) -> (r: i64)
        requires
            self.wf(),
            point@.bounded(MAX_POS as int),
        ensures
            r == spec_aabb_sd(*self, point@),
    {
        let qx = axis_excess(self.min.x, self.max.x, point.x);
        let qy = axis_excess(self.min.y, self.max.y, point.y);
        let qz = axis_excess(self.min.z, self.max.z, point.z);
        let px = if qx > 0 { qx } else { 0 };
        let py = if qy > 0 { qy } else { 0 };
        let pz = if qz > 0 { qz } else { 0 };
        proof {
            lemma_excess_sq_bound(px as int);
            lemma_excess_sq_bound(py as int);
            lemma_excess_sq_bound(pz as int);
        }
        let outside = isqrt(px * px + py * py + pz * pz);
        let m = max3(qx, qy, qz);
        outside + (if m < 0 { m } else { 0 })
    }

    /// The nearest surface point: the componentwise clamp when the
    /// query is outside; when it is inside (or on the surface), the
    /// query with its least-penetrated axis snapped to the nearer face.
    pub fn closest_surface_point(&self, point: Vec3) -> (r: Vec3)
        requires
            self.wf(),
            point@.bounded(MAX_POS as int),
        ensures
            r@ == spec_aabb_closest(*self, point@),
            spec_aabb_contains(*self, r@),
            r@.x == self.min@.x || r@.x == self.max@.x || r@.y == self.min@.y
                || r@.y == self.max@.y || r@.z == self.min@.z || r@.z == self.max@.z,
            r@.bounded(MAX_CORNER as int),
    {
        let cx = clamp(self.min.x, self.max.x, point.x);
        let cy = clamp(self.min.y, self.max.y, point.y);
        let cz = clamp(self.min.z, self.max.z, point.z);
        if cx == point.x && cy == point.y && cz == point.z {
            let dx = nearer_face_gap(self.min.x, self.max.x, point.x);
            let dy = nearer_face_gap(self.min.y, self.max.y, point.y);
            let dz = nearer_face_gap(self.min.z, self.max.z, point.z);
            let m = min3(dx, dy, dz);
            if dx - m < 100 {
                let sx = if toward_max(self.min.x, self.max.x, point.x) {
                    self.max.x
                } else {
                    self.min.x
                };
                Vec3 { x: sx, y: point.y, z: point.z }
            } else if dy - m < 100 {
                let sy = if toward_max(self.min.y, self.max.y, point.y) {
                    self.max.y
                } else {
                    self.min.y
                };
                Vec3 { x: point.x, y: sy, z: point.z }
            } else {
                let sz = if toward_max(self.min.z, self.max.z, point.z) {
                    self.max.z
                } else {
                    self.min.z
                };
                Vec3 { x: point.x, y: point.y, z: sz }
            }
        } else {
            Vec3 { x: cx, y: cy, z: cz }
        }
    }

    /// The box centre (componentwise midpoint, rounded toward zero).
    pub fn center(&self) -> (r: Vec3)
        requires
            self.min@.bounded(MAX_CORNER as int),
            self.max@.bounded(MAX_CORNER as int),
        ensures
            r@.x == spec_half(self.min@.x + self.max@.x),
            r@.y == spec_half(self.min@.y + self.max@.y),
            r@.z == spec_half(self.min@.z + self.max@.z),
    {
        Vec3 {
            x: half(self.min.x + self.max.x),
            y: half(self.min.y + self.max.y),
            z: half(self.min.z + self.max.z),
        }
    }

    /// Descriptor for rendering: centre and half-extents.
    pub fn render_shape(&self) -> (r: ObstacleShape)
        requires
            self.wf(),
        ensures
            r matches ObstacleShape::Aabb { center, half_extents } && center@.x == spec_half(
                self.min@.x + self.max@.x) && center@.y == spec_half(self.min@.y + self.max@.y)
                && center@.z == spec_half(self.min@.z + self.max@.z) && half_extents@.x
                == spec_half(self.max@.x - self.min@.x) && half_extents@.y == spec_half(
                self.max@.y - self.min@.y) && half_extents@.z == spec_half(
                self.max@.z - self.min@.z),
    {
        ObstacleShape::Aabb { center: self.center(), half_extents: self.half_extents() }
    }
}

/// Clamp `v` into `[lo, hi]`.
fn clamp(lo: i64, hi: i64, v: i64) -> (r: i64)
    requires
        lo <= hi,
    ensures
        r == spec_clamp_axis(lo as int, hi as int, v as int),
        lo <= r <= hi,
        lo <= v <= hi ==> r == v,
{
    if v < lo {
        lo
    } else if v > hi {
        hi
    } else {
        v
    }
}

/// Clamp into a closed interval.
pub open spec fn spec_clamp_axis(lo: int, hi: int, v: int) -> int {
    if v < lo {
        lo
    } else if v > hi {
        hi
    } else {
        v
    }
}

/// Distance to the nearer of the two faces of a slab, for a point
/// inside it.
fn nearer_face_gap(lo: i64, hi: i64, v: i64) -> (r: i64)
    requires
        i64::MIN / 2 < lo <= v <= hi < i64::MAX / 2,
    ensures
        r == spec_min2(v - lo, hi - v),
        0 <= r,
{
    if v - lo <= hi - v {
        v - lo
    } else {
        hi - v
    }
}

/// The smaller of two values.
pub open spec fn spec_min2(a: int, b: int) -> int {
    if a <= b {
        a
    } else {
        b
    }
}

/// Whether `v` sits in the upper half of the slab.
fn toward_max(lo: i64, hi: i64, v: i64) -> (r: bool)
    requires
        i64::MIN / 2 < lo <= hi < i64::MAX / 2,
        i64::MIN / 2 < v < i64::MAX / 2,
    ensures
        r == (2 * v > lo + hi),
{
    2 * v > lo + hi
}

/// The larger of three values.
fn max3(a: i64, b: i64, c: i64) -> (r: i64)
    ensures
        r == spec_max3(a as int, b as int, c as int),
{
    if a >= b && a >= c {
        a
    } else if b >= c {
        b
    } else {
        c
    }
}

/// The smaller of three values.
fn min3(a: i64, b: i64, c: i64) -> (r: i64)
    ensures
        r == spec_min2(a as int, spec_min2(b as int, c as int)),
        r <= a && r <= b && r <= c,
{
    let bc = if b <= c { b } else { c };
    if a <= bc {
        a
    } else {
        bc
    }
}

/// Per-axis excess used by the box signed distance.
fn axis_excess(lo: i64, hi: i64, v: i64) -> (r: i64)
    requires
        -400_000_000 <= lo <= 400_000_000,
        -400_000_000 <= hi <= 400_000_000,
        -600_000_000 <= v <= 600_000_000,
    ensures
        r == spec_axis_excess(lo as int, hi as int, v as int),
        -1_000_000_000 <= r <= 1_000_000_000,
{
    let a = lo - v;
    let b = v - hi;
    if a >= b {
        a
    } else {
        b
    }
}

/// Squares of clipped excesses stay within a third of `i64`.
proof fn lemma_excess_sq_bound(d: int)
    requires
        0 <= d <= 1_000_000_000,
    ensures
        0 <= d * d <= 1_000_000_000_000_000_000,
{
    assert(0 <= d * d && d * d <= 1_000_000_000int * 1_000_000_000int) by (nonlinear_arith)
        requires 0 <= d <= 1_000_000_000;
}

/// The unit vectors along the coordinate axes, scaled by `SCALE`.
pub open spec fn spec_is_axis_unit(v: V3) -> bool {
    ||| v == (V3 { x: SCALE as int, y: 0, z: 0 })
    ||| v == (V3 { x: -(SCALE as int), y: 0, z: 0 })
    ||| v == (V3 { x: 0, y: SCALE as int, z: 0 })
    ||| v == (V3 { x: 0, y: -(SCALE as int), z: 0 })
    ||| v == (V3 { x: 0, y: 0, z: SCALE as int })
    ||| v == (V3 { x: 0, y: 0, z: -(SCALE as int) })
}

/// Whether `p` lies on the box boundary.
pub open spec fn spec_on_face(b: AabbObstacle, p: V3) -> bool {
    ||| p.x == b.min@.x
    ||| p.x == b.max@.x
    ||| p.y == b.min@.y
    ||| p.y == b.max@.y
    ||| p.z == b.min@.z
    ||| p.z == b.max@.z
}

/// The normal points out of the face the point sits on.
pub open spec fn spec_normal_on_face(b: AabbObstacle, p: V3, r: V3) -> bool {
    ||| (r == (V3 { x: SCALE as int, y: 0, z: 0 }) && p.x == b.max@.x)
    ||| (r == (V3 { x: -(SCALE as int), y: 0, z: 0 }) && p.x == b.min@.x)
    ||| (r == (V3 { x: 0, y: SCALE as int, z: 0 }) && p.y == b.max@.y)
    ||| (r == (V3 { x: 0, y: -(SCALE as int), z: 0 }) && p.y == b.min@.y)
    ||| (r == (V3 { x: 0, y: 0, z: SCALE as int }) && p.z == b.max@.z)
    ||| (r == (V3 { x: 0, y: 0, z: -(SCALE as int) }) && p.z == b.min@.z)
}

/// The box surface normal: the outward axis whose slab the point
/// penetrates least, relative to the box thickness on that axis.
pub open spec fn spec_aabb_normal(b: AabbObstacle, p: V3) -> V3 {
    let ux = if 2 * p.x - b.min@.x - b.max@.x >= 0 {
        2 * p.x - b.min@.x - b.max@.x
    } else {
        -(2 * p.x - b.min@.x - b.max@.x)
    };
    let uy = if 2 * p.y - b.min@.y - b.max@.y >= 0 {
        2 * p.y - b.min@.y - b.max@.y
    } else {
        -(2 * p.y - b.min@.y - b.max@.y)
    };
    let uz = if 2 * p.z - b.min@.z - b.max@.z >= 0 {
        2 * p.z - b.min@.z - b.max@.z
    } else {
        -(2 * p.z - b.min@.z - b.max@.z)
    };
    let hx = b.max@.x - b.min@.x;
    let hy = b.max@.y - b.min@.y;
    let hz = b.max@.z - b.min@.z;
    if ux * hy > uy * hx && ux * hz > uz * hx {
        if 2 * p.x - b.min@.x - b.max@.x >= 0 {
            V3 { x: SCALE as int, y: 0, z: 0 }
        } else {
            V3 { x: -(SCALE as int), y: 0, z: 0 }
        }
    } else if uy * hz > uz * hy {
        if 2 * p.y - b.min@.y - b.max@.y >= 0 {
            V3 { x: 0, y: SCALE as int, z: 0 }
        } else {
            V3 { x: 0, y: -(SCALE as int), z: 0 }
        }
    } else {
        if 2 * p.z - b.min@.z - b.max@.z >= 0 {
            V3 { x: 0, y: 0, z: SCALE as int }
        } else {
            V3 { x: 0, y: 0, z: -(SCALE as int) }
        }
    }
}

impl AabbObstacle {
    /// Outward unit axis normal at (or nearest to) `point`: the axis on
    /// which the point, scaled by the box thickness, is furthest from
    /// the centre.  For a point on the boundary, the normal points out
    /// of a face the point actually lies on.
    pub fn surface_normal(&self, point: Vec3) -> (r: Vec3)
        requires
            self.wf(),
            point@.bounded(10_000_000_000int),
        ensures
            r@ == spec_aabb_normal(*self, point@),
            spec_is_axis_unit(r@),
            spec_aabb_contains(*self, point@) && spec_on_face(*self, point@)
                ==> spec_normal_on_face(*self, point@, r@),
            r@.bounded(SCALE as int),
    {
        let dx = 2 * point.x - self.min.x - self.max.x;
        let dy = 2 * point.y - self.min.y - self.max.y;
        let dz = 2 * point.z - self.min.z - self.max.z;
        let ux = if dx >= 0 { dx } else { -dx };
        let uy = if dy >= 0 { dy } else { -dy };
        let uz = if dz >= 0 { dz } else { -dz };
        let hx = self.max.x - self.min.x;
        let hy = self.max.y - self.min.y;
        let hz = self.max.z - self.min.z;
        proof {
            lemma_prod_cast(ux as int, hy as int);
            lemma_prod_cast(uy as int, hx as int);
            lemma_prod_cast(ux as int, hz as int);
            lemma_prod_cast(uz as int, hx as int);
            lemma_prod_cast(uy as int, hz as int);
            lemma_prod_cast(uz as int, hy as int);
        }
        let r = if (ux as i128) * (hy as i128) > (uy as i128) * (hx as i128)
            && (ux as i128) * (hz as i128) > (uz as i128) * (hx as i128) {
            if dx >= 0 {
                Vec3 { x: SCALE, y: 0, z: 0 }
            } else {
                Vec3 { x: -SCALE, y: 0, z: 0 }
            }
        } else if (uy as i128) * (hz as i128) > (uz as i128) * (hy as i128) {
            if dy >= 0 {
                Vec3 { x: 0, y: SCALE, z: 0 }
            } else {
                Vec3 { x: 0, y: -SCALE, z: 0 }
            }
        } else {
            if dz >= 0 {
                Vec3 { x: 0, y: 0, z: SCALE }
            } else {
                Vec3 { x: 0, y: 0, z: -SCALE }
            }
        };
        proof {
            if spec_aabb_contains(*self, point@) && spec_on_face(*self, point@) {
                lemma_normal_picks_face(
                    ux as int, uy as int, uz as int,
                    hx as int, hy as int, hz as int,
                );
            }
        }
        r
    }

    /// Push `point` to the margin outside the nearest face: the signed
    /// distance of the result is exactly `margin`.
    pub fn push_out(&self, point: Vec3, margin: i64) -> (r: Vec3)
        requires
            self.wf(),
            point@.bounded(MAX_POS as int),
            0 <= margin <= MAX_MARGIN,
        ensures
            r@ == spec_aabb_push(*self, point@, margin as int),
            spec_aabb_sd(*self, r@) == margin,
            r@.bounded(MAX_CORNER as int + MAX_MARGIN as int),
    {
        let surf = self.closest_surface_point(point);
        let n = self.surface_normal(surf);
        proof {
            assert(-(SCALE as int) * (MAX_MARGIN as int) <= (n.x as int) * (margin as int)
                <= (SCALE as int) * (MAX_MARGIN as int)) by (nonlinear_arith)
                requires -SCALE <= n.x <= SCALE, 0 <= margin <= MAX_MARGIN;
            assert(-(SCALE as int) * (MAX_MARGIN as int) <= (n.y as int) * (margin as int)
                <= (SCALE as int) * (MAX_MARGIN as int)) by (nonlinear_arith)
                requires -SCALE <= n.y <= SCALE, 0 <= margin <= MAX_MARGIN;
            assert(-(SCALE as int) * (MAX_MARGIN as int) <= (n.z as int) * (margin as int)
                <= (SCALE as int) * (MAX_MARGIN as int)) by (nonlinear_arith)
                requires -SCALE <= n.z <= SCALE, 0 <= margin <= MAX_MARGIN;
            lemma_axis_unit_scaled(n@, margin as int);
        }
        let ox = crate::fixed::div_away(n.x * margin, SCALE);
        let oy = crate::fixed::div_away(n.y * margin, SCALE);
        let oz = crate::fixed::div_away(n.z * margin, SCALE);
        let r = Vec3 { x: surf.x + ox, y: surf.y + oy, z: surf.z + oz };
        proof {
            lemma_push_face_sd(*self, surf@, r@, n@, margin as int);
        }
        r
    }
}

/// The pushed point of a box: the nearest surface point, moved `margin`
/// along the outward normal there.
pub open spec fn spec_aabb_push(b: AabbObstacle, p: V3, margin: int) -> V3 {
    let s = spec_aabb_closest(b, p);
    let n = spec_aabb_normal(b, s);
    V3 {
        x: s.x + spec_div_away_local(n.x * margin),
        y: s.y + spec_div_away_local(n.y * margin),
        z: s.z + spec_div_away_local(n.z * margin),
    }
}

/// Away-from-zero division by `SCALE`.
pub open spec fn spec_div_away_local(a: int) -> int {
    crate::fixed::spec_div_away(a, SCALE as int)
}

/// Scaling an axis unit by `margin / SCALE` gives exactly the margin on
/// that axis.
proof fn lemma_axis_unit_scaled(n: V3, margin: int)
    requires
        spec_is_axis_unit(n),
        0 <= margin,
    ensures
        spec_div_away_local(n.x * margin) == (if n.x > 0 { margin } else if n.x < 0 { -margin } else { 0 }),
        spec_div_away_local(n.y * margin) == (if n.y > 0 { margin } else if n.y < 0 { -margin } else { 0 }),
        spec_div_away_local(n.z * margin) == (if n.z > 0 { margin } else if n.z < 0 { -margin } else { 0 }),
{
    lemma_unit_scaled_comp(n.x, margin);
    lemma_unit_scaled_comp(n.y, margin);
    lemma_unit_scaled_comp(n.z, margin);
}

/// One component of the axis-unit scaling.
proof fn lemma_unit_scaled_comp(c: int, margin: int)
    requires
        c == SCALE as int || c == -(SCALE as int) || c == 0,
        0 <= margin,
    ensures
        spec_div_away_local(c * margin) == (if c > 0 { margin } else if c < 0 { -margin } else { 0 }),
{
    let s = SCALE as int;
    if c == s {
        assert(c * margin == s * margin) by (nonlinear_arith)
            requires c == s;
        assert(s * margin >= 0) by (nonlinear_arith)
            requires 0 <= margin, 0 < s;
        assert((s * margin + s - 1) / s == margin) by {
            vstd::arithmetic::div_mod::lemma_fundamental_div_mod(s * margin + s - 1, s);
            vstd::arithmetic::div_mod::lemma_hoist_over_denominator(s - 1, margin, s as nat);
            assert((s * margin + (s - 1)) / s == (s - 1) / s + margin);
        }
    } else if c == -s {
        assert(c * margin == -(s * margin)) by (nonlinear_arith)
            requires c == -s;
        assert(s * margin >= 0) by (nonlinear_arith)
            requires 0 <= margin, 0 < s;
        if margin == 0 {
            assert(c * margin == 0) by (nonlinear_arith)
                requires c == -s, margin == 0;
        } else {
            assert((s * margin + s - 1) / s == margin) by {
                vstd::arithmetic::div_mod::lemma_hoist_over_denominator(s - 1, margin, s as nat);
                assert((s * margin + (s - 1)) / s == (s - 1) / s + margin);
            }
        }
    } else {
        assert(c * margin == 0) by (nonlinear_arith)
            requires c == 0;
    }
}

/// A point exactly `margin` off one face, within all slabs otherwise,
/// has box signed distance exactly `margin`.
proof fn lemma_push_face_sd(b: AabbObstacle, s: V3, r: V3, n: V3, margin: int)
    requires
        spec_aabb_contains(b, s),
        spec_normal_on_face(b, s, n),
        0 <= margin,
        b.min@.x < b.max@.x,
        b.min@.y < b.max@.y,
        b.min@.z < b.max@.z,
        r.x == s.x + spec_div_away_local(n.x * margin),
        r.y == s.y + spec_div_away_local(n.y * margin),
        r.z == s.z + spec_div_away_local(n.z * margin),
    ensures
        spec_aabb_sd(b, r) == margin,
{
    lemma_axis_unit_scaled(n, margin);
    let qx = spec_axis_excess(b.min@.x, b.max@.x, r.x);
    let qy = spec_axis_excess(b.min@.y, b.max@.y, r.y);
    let qz = spec_axis_excess(b.min@.z, b.max@.z, r.z);
    assert(spec_max3(qx, qy, qz) == margin);
    assert(sq(spec_pos(qx)) + sq(spec_pos(qy)) + sq(spec_pos(qz)) == margin * margin) by {
        assert(sq(0) == 0) by (nonlinear_arith);
    }
    lemma_sqrt_square(margin);
}

/// A product of two in-range values agrees with its wide computation.
proof fn lemma_prod_cast(u: int, h: int)
    requires
        0 <= u <= 21_000_000_000,
        0 <= h <= 800_000_000,
    ensures
        (u as i128) as int * ((h as i128) as int) == u * h,
        0 <= u * h <= 16_800_000_000_000_000_000,
{
    assert(0 <= u * h && u * h <= 21_000_000_000int * 800_000_000int) by (nonlinear_arith)
        requires 0 <= u <= 21_000_000_000, 0 <= h <= 800_000_000;
}

/// When the scaled coordinates pick an axis and the point is on the
/// boundary, the picked axis is itself at its face.
proof fn lemma_normal_picks_face(ux: int, uy: int, uz: int, hx: int, hy: int, hz: int)
    requires
        0 < hx,
        0 < hy,
        0 < hz,
        0 <= ux <= hx,
        0 <= uy <= hy,
        0 <= uz <= hz,
        ux == hx || uy == hy || uz == hz,
    ensures
        (ux * hy > uy * hx && ux * hz > uz * hx) ==> ux == hx,
        !(ux * hy > uy * hx && ux * hz > uz * hx) && uy * hz > uz * hy ==> uy == hy,
        !(ux * hy > uy * hx && ux * hz > uz * hx) && !(uy * hz > uz * hy) ==> uz == hz,
{
    if ux * hy > uy * hx && ux * hz > uz * hx {
        if ux < hx {
            if uy == hy {
                assert(ux * hy < hx * hy) by (nonlinear_arith)
                    requires ux < hx, 0 < hy;
                assert(uy * hx == hy * hx) by (nonlinear_arith)
                    requires uy == hy;
                assert(hx * hy == hy * hx) by (nonlinear_arith);
                assert(false);
            } else if uz == hz {
                assert(ux * hz < hx * hz) by (nonlinear_arith)
                    requires ux < hx, 0 < hz;
                assert(uz * hx == hz * hx) by (nonlinear_arith)
                    requires uz == hz;
                assert(hx * hz == hz * hx) by (nonlinear_arith);
                assert(false);
            } else {
                assert(ux == hx);
            }
        }
    } else if uy * hz > uz * hy {
        if uy < hy {
            if uz == hz {
                assert(uy * hz < hy * hz) by (nonlinear_arith)
                    requires uy < hy, 0 < hz;
                assert(uz * hy == hz * hy) by (nonlinear_arith)
                    requires uz == hz;
                assert(hy * hz == hz * hy) by (nonlinear_arith);
                assert(false);
            } else {
                assert(ux == hx);
                if ux * hy <= uy * hx {
                    assert(hx * hy <= uy * hx) by (nonlinear_arith)
                        requires ux == hx, ux * hy <= uy * hx;
                    assert(hy <= uy) by (nonlinear_arith)
                        requires hx * hy <= uy * hx, 0 < hx;
                    assert(false);
                } else {
                    assert(ux * hz <= uz * hx);
                    assert(hx * hz <= uz * hx) by (nonlinear_arith)
                        requires ux == hx, ux * hz <= uz * hx;
                    assert(hz <= uz) by (nonlinear_arith)
                        requires hx * hz <= uz * hx, 0 < hx;
                    assert(uz == hz);
                    assert(uy * hz > hz * hy) by (nonlinear_arith)
                        requires uz == hz, uy * hz > uz * hy;
                    assert(uy > hy) by (nonlinear_arith)
                        requires uy * hz > hz * hy, 0 < hz;
                    assert(false);
                }
            }
        }
    } else {
        if uz < hz {
            if uy == hy {
                assert(uy * hz <= uz * hy);
                assert(hy * hz <= uz * hy) by (nonlinear_arith)
                    requires uy == hy, uy * hz <= uz * hy;
                assert(hz <= uz) by (nonlinear_arith)
                    requires hy * hz <= uz * hy, 0 < hy;
                assert(false);
            } else {
                assert(ux == hx);
                if ux * hy <= uy * hx {
                    assert(hx * hy <= uy * hx) by (nonlinear_arith)
                        requires ux == hx, ux * hy <= uy * hx;
                    assert(hy <= uy) by (nonlinear_arith)
                        requires hx * hy <= uy * hx, 0 < hx;
                    assert(uy == hy);
                    assert(false);
                } else {
                    assert(ux * hz <= uz * hx);
                    assert(hx * hz <= uz * hx) by (nonlinear_arith)
                        requires ux == hx, ux * hz <= uz * hx;
                    assert(hz <= uz) by (nonlinear_arith)
                        requires hx * hz <= uz * hx, 0 < hx;
                    assert(false);
                }
            }
        }
    }
}

/// The nearest surface point lies in the closed box, on its boundary.
pub proof fn lemma_aabb_closest_props(b: AabbObstacle, p: V3)
    requires
        b.min@.x <= b.max@.x,
        b.min@.y <= b.max@.y,
        b.min@.z <= b.max@.z,
    ensures
        spec_aabb_contains(b, spec_aabb_closest(b, p)),
        spec_on_face(b, spec_aabb_closest(b, p)),
{
    let cx = spec_clamp_axis(b.min@.x, b.max@.x, p.x);
    let cy = spec_clamp_axis(b.min@.y, b.max@.y, p.y);
    let cz = spec_clamp_axis(b.min@.z, b.max@.z, p.z);
    if cx == p.x && cy == p.y && cz == p.z {
        assert(b.min@.x <= p.x <= b.max@.x);
        assert(b.min@.y <= p.y <= b.max@.y);
        assert(b.min@.z <= p.z <= b.max@.z);
    } else {
        assert(cx != p.x || cy != p.y || cz != p.z);
        if cx != p.x {
            assert(cx == b.min@.x || cx == b.max@.x);
        } else if cy != p.y {
            assert(cy == b.min@.y || cy == b.max@.y);
        } else {
            assert(cz == b.min@.z || cz == b.max@.z);
        }
    }
}

/// For a boundary point of a well-formed box, the normal points out of
/// a face the point lies on.
pub proof fn lemma_aabb_normal_props(b: AabbObstacle, p: V3)
    requires
        b.min@.x < b.max@.x,
        b.min@.y < b.max@.y,
        b.min@.z < b.max@.z,
        spec_aabb_contains(b, p),
        spec_on_face(b, p),
    ensures
        spec_normal_on_face(b, p, spec_aabb_normal(b, p)),
        spec_is_axis_unit(spec_aabb_normal(b, p)),
{
    let dx = 2 * p.x - b.min@.x - b.max@.x;
    let dy = 2 * p.y - b.min@.y - b.max@.y;
    let dz = 2 * p.z - b.min@.z - b.max@.z;
    let ux = if dx >= 0 { dx } else { -dx };
    let uy = if dy >= 0 { dy } else { -dy };
    let uz = if dz >= 0 { dz } else { -dz };
    let hx = b.max@.x - b.min@.x;
    let hy = b.max@.y - b.min@.y;
    let hz = b.max@.z - b.min@.z;
    assert(0 <= ux <= hx);
    assert(0 <= uy <= hy);
    assert(0 <= uz <= hz);
    assert(ux == hx || uy == hy || uz == hz);
    lemma_normal_picks_face(ux, uy, uz, hx, hy, hz);
}

/// An obstacle's push-out really clears it: at spec level, the pushed
/// point's signed distance is at least the margin, and the pushed point
/// stays within the joint position bound.
pub proof fn lemma_obstacle_push_clears(o: Obstacle, p: V3, margin: int)
    requires
        o.wf(),
        p.bounded(MAX_POS as int),
        0 <= margin <= MAX_MARGIN,
    ensures
        spec_obstacle_sd(o, spec_obstacle_push(o, p, margin)) >= margin,
        spec_obstacle_push(o, p, margin).bounded(MAX_POS as int),
{
    match o {
        Obstacle::Sphere(s) => {
            let len = s.radius + margin;
            let r = spec_offset_from(s.center@, p, len);
            crate::vec3::lemma_offset_from_props(s.center@, p, len);
            let d2 = spec_dist_sq(r, s.center@);
            assert(0 <= len * len) by (nonlinear_arith)
                requires 0 <= len;
            lemma_sqrt_square(len);
            lemma_sqrt_monotone(len * len, d2);
        },
        Obstacle::Aabb(b) => {
            lemma_aabb_closest_props(b, p);
            let s = spec_aabb_closest(b, p);
            lemma_aabb_normal_props(b, s);
            let n = spec_aabb_normal(b, s);
            let r = spec_aabb_push(b, p, margin);
            lemma_push_face_sd(b, s, r, n, margin);
            lemma_axis_unit_scaled(n, margin);
        },
    }
}

/// A heterogeneous obstacle: sphere or axis-aligned box.
#[derive(Clone, Copy, Debug, PartialEq, Eq, Structural)]
pub enum Obstacle {
    /// A solid sphere.
    Sphere(SphereObstacle),
    /// A solid axis-aligned box.
    Aabb(AabbObstacle),
}

/// Signed distance from a point to an obstacle's surface.
pub open spec fn spec_obstacle_sd(o: Obstacle, p: V3) -> int {
    match o {
        Obstacle::Sphere(s) => spec_sphere_sd(s, p),
        Obstacle::Aabb(b) => spec_aabb_sd(b, p),
    }
}

/// Whether a point lies inside or on an obstacle.
pub open spec fn spec_obstacle_contains(o: Obstacle, p: V3) -> bool {
    match o {
        Obstacle::Sphere(s) => spec_dist_sq(p, s.center@) <= sq(s.radius as int),
        Obstacle::Aabb(b) => spec_aabb_contains(b, p),
    }
}

/// Where an obstacle pushes a point that must clear it by `margin`.
pub open spec fn spec_obstacle_push(o: Obstacle, p: V3, margin: int) -> V3 {
    match o {
        Obstacle::Sphere(s) => spec_offset_from(s.center@, p, s.radius + margin),
        Obstacle::Aabb(b) => spec_aabb_push(b, p, margin),
    }
}

impl Obstacle {
    /// Well-formedness of the underlying shape.
    pub open spec fn wf(self) -> bool {
        match self {
            Obstacle::Sphere(s) => s.wf(),
            Obstacle::Aabb(b) => b.wf(),
        }
    }

    /// Whether `point` lies inside or on the obstacle.
    pub fn contains_point(&self, point: Vec3) -> (r: bool)
        requires
            self.wf(),
            point@.bounded(MAX_POS as int),
        ensures
            r == spec_obstacle_contains(*self, point@),
    {
        match self {
            Obstacle::Sphere(s) => s.contains_point(point),
            Obstacle::Aabb(b) => b.contains_point(point),
        }
    }

    /// Signed distance: negative inside, zero on the surface.
    pub fn signed_distance(&self, point: Vec3) -> (r: i64)
        requires
            self.wf(),
            point@.bounded(MAX_POS as int),
        ensures
            r == spec_obstacle_sd(*self, point@),
    {
        match self {
            Obstacle::Sphere(s) => s.signed_distance(point),
            Obstacle::Aabb(b) => b.signed_distance(point),
        }
    }

    /// The nearest point of the obstacle's surface.
    pub fn closest_surface_point(&self, point: Vec3) -> (r: Vec3)
        requires
            self.wf(),
            point@.bounded(MAX_POS as int),
        ensures
            self matches Obstacle::Sphere(s) ==> r@ == spec_offset_from(
                s.center@, point@, s.radius as int),
            self matches Obstacle::Aabb(b) ==> r@ == spec_aabb_closest(*b, point@),
            r@.bounded(MAX_POS as int),
    {
        match self {
            Obstacle::Sphere(s) => s.closest_surface_point(point),
            Obstacle::Aabb(b) => b.closest_surface_point(point),
        }
    }

    /// Outward unit normal at (or nearest to) `point`.
    pub fn surface_normal(&self, point: Vec3) -> (r: Vec3)
        requires
            self.wf(),
            point@.bounded(MAX_POS as int),
        ensures
            self matches Obstacle::Sphere(s) ==> r@ == crate::vec3::spec_normalize(
                V3 {
                    x: point@.x - s.center@.x,
                    y: point@.y - s.center@.y,
                    z: point@.z - s.center@.z,
                },
            ),
            self matches Obstacle::Aabb(b) ==> r@ == spec_aabb_normal(*b, point@),
            r@.bounded(SCALE as int),
    {
        match self {
            Obstacle::Sphere(s) => s.surface_normal(point),
            Obstacle::Aabb(b) => b.surface_normal(point),
        }
    }

    /// Push `point` to at least `margin` outside the surface.
    ///
    /// The result's signed distance is at least `margin` whatever the
    /// shape (exactly `margin` for a box), and the result stays within
    /// the position bound, so a pushed joint is always a valid joint.
    pub fn push_out(&self, point: Vec3, margin: i64) -> (r: Vec3)
        requires
            self.wf(),
            point@.bounded(MAX_POS as int),
            0 <= margin <= MAX_MARGIN,
        ensures
            r@ == spec_obstacle_push(*self, point@, margin as int),
            spec_obstacle_sd(*self, r@) >= margin,
            r@.bounded(MAX_POS as int),
    {
        match self {
            Obstacle::Sphere(s) => s.push_out(point, margin),
            Obstacle::Aabb(b) => b.push_out(point, margin),
        }
    }

    /// Decide well-formedness at run time.
    pub fn is_well_formed(&self) -> (b: bool)
        ensures
            b == self.wf(),
    {
        match self {
            Obstacle::Sphere(s) => {
                s.center.x >= -MAX_ANCHOR && s.center.x <= MAX_ANCHOR && s.center.y
                    >= -MAX_ANCHOR && s.center.y <= MAX_ANCHOR && s.center.z >= -MAX_ANCHOR
                    && s.center.z <= MAX_ANCHOR && s.radius >= 0 && s.radius <= MAX_RADIUS
            },
            Obstacle::Aabb(b) => {
                b.min.x >= -MAX_CORNER && b.min.x <= MAX_CORNER && b.min.y >= -MAX_CORNER
                    && b.min.y <= MAX_CORNER && b.min.z >= -MAX_CORNER && b.min.z <= MAX_CORNER
                    && b.max.x >= -MAX_CORNER && b.max.x <= MAX_CORNER && b.max.y >= -MAX_CORNER
                    && b.max.y <= MAX_CORNER && b.max.z >= -MAX_CORNER && b.max.z <= MAX_CORNER
                    && b.min.x + MIN_THICKNESS <= b.max.x && b.min.y + MIN_THICKNESS <= b.max.y
                    && b.min.z + MIN_THICKNESS <= b.max.z
            },
        }
    }

    /// The obstacle's centre.
    pub fn center(&self) -> (r: Vec3)
        requires
            self.wf(),
        ensures
            self matches Obstacle::Sphere(s) ==> r == s.center,
            self matches Obstacle::Aabb(b) ==> r@.x == spec_half(b.min@.x + b.max@.x)
                && r@.y == spec_half(b.min@.y + b.max@.y) && r@.z == spec_half(
                b.min@.z + b.max@.z),
    {
        match self {
            Obstacle::Sphere(s) => s.center(),
            Obstacle::Aabb(b) => b.center(),
        }
    }

    /// Descriptor for rendering.
    pub fn render_shape(&self) -> (r: ObstacleShape)
        requires
            self.wf(),
        ensures
            self matches Obstacle::Sphere(s) ==> r == (ObstacleShape::Sphere {
                center: s.center,
                radius: s.radius,
            }),
            self matches Obstacle::Aabb(b) ==> r is Aabb,
    {
        match self {
            Obstacle::Sphere(s) => s.render_shape(),
            Obstacle::Aabb(b) => b.render_shape(),
        }
    }
}

/// The nearest surface point of a box, over views.
pub open spec fn spec_aabb_closest(b: AabbObstacle, p: V3) -> V3 {
    let cx = spec_clamp_axis(b.min@.x, b.max@.x, p.x);
    let cy = spec_clamp_axis(b.min@.y, b.max@.y, p.y);
    let cz = spec_clamp_axis(b.min@.z, b.max@.z, p.z);
    if cx == p.x && cy == p.y && cz == p.z {
        let dx = spec_min2(p.x - b.min@.x, b.max@.x - p.x);
        let dy = spec_min2(p.y - b.min@.y, b.max@.y - p.y);
        let dz = spec_min2(p.z - b.min@.z, b.max@.z - p.z);
        let m = spec_min2(dx, spec_min2(dy, dz));
        if dx - m < 100 {
            V3 {
                x: if 2 * p.x > b.min@.x + b.max@.x { b.max@.x } else { b.min@.x },
                y: p.y,
                z: p.z,
            }
        } else if dy - m < 100 {
            V3 {
                x: p.x,
                y: if 2 * p.y > b.min@.y + b.max@.y { b.max@.y } else { b.min@.y },
                z: p.z,
            }
        } else {
            V3 {
                x: p.x,
                y: p.y,
                z: if 2 * p.z > b.min@.z + b.max@.z { b.max@.z } else { b.min@.z },
            }
        }
    } else {
        V3 { x: cx, y: cy, z: cz }
    }
}

} // verus!
