//! Angular joint constraints.
//!
//! A constraint clamps a candidate bone direction against the parent
//! bone's reference direction.  The free variant just normalizes the
//! candidate; the ball-socket (cone) variant passes directions within
//! its half-angle through and rotates the reference toward the
//! candidate by exactly the half-angle otherwise.
//!
//! Angles are fixed-point micro-radians.  The cone stores the cosine
//! and sine of its half-angle, computed once at construction with a
//! truncated Taylor series over micro-units.

use vstd::prelude::*;
use crate::fixed::spec_div_away;
use crate::fixed::div_away;
use crate::fixed::SCALE;
use crate::fixed::MAX_COORD;
use crate::vec3::Vec3;
use crate::vec3::V3;
use crate::vec3::sq;
use crate::vec3::spec_dot;
use crate::vec3::spec_cross;
use crate::vec3::spec_normalize;
use crate::vec3::dot;
use crate::vec3::cross;
use crate::vec3::normalize;

verus! {

/// Half the circle, in micro-radians.
pub const PI_URAD: i64 = 3_141_593;

/// A quarter circle, in micro-radians.
pub const HALF_PI_URAD: i64 = 1_570_796;

/// Squared length below which a rotation axis counts as degenerate.
pub const AXIS_EPS_SQ: i64 = 100_000_000;

/// Truncated Taylor cosine on `[0, HALF_PI_URAD]`, in micro-units.
pub open spec fn spec_cos_quarter(x: int) -> int {
    let x2 = x * x / (SCALE as int);
    let x4 = x2 * x2 / (SCALE as int);
    let x6 = x4 * x2 / (SCALE as int);
    (SCALE as int) - x2 / 2 + x4 / 24 - x6 / 720
}

/// Truncated Taylor sine on `[0, HALF_PI_URAD]`, in micro-units.
pub open spec fn spec_sin_quarter(x: int) -> int {
    let x2 = x * x / (SCALE as int);
    let x3 = x * x2 / (SCALE as int);
    let x5 = x3 * x2 / (SCALE as int);
    let x7 = x5 * x2 / (SCALE as int);
    x - x3 / 6 + x5 / 120 - x7 / 5040
}

/// Clamp a value into the unit range `[-SCALE, SCALE]`.
pub open spec fn spec_unit_clamp(v: int) -> int {
    if v > SCALE as int {
        SCALE as int
    } else if v < -(SCALE as int) {
        -(SCALE as int)
    } else {
        v
    }
}

/// Cosine of an angle in `[0, PI_URAD]`, folded onto the first quarter.
pub open spec fn spec_cos_urad(theta: int) -> int {
    if theta <= HALF_PI_URAD as int {
        spec_unit_clamp(spec_cos_quarter(theta))
    } else {
        spec_unit_clamp(-spec_cos_quarter((PI_URAD as int) - theta))
    }
}

/// Sine of an angle in `[0, PI_URAD]`, folded onto the first quarter.
pub open spec fn spec_sin_urad(theta: int) -> int {
    if theta <= HALF_PI_URAD as int {
        spec_unit_clamp(spec_sin_quarter(theta))
    } else {
        spec_unit_clamp(spec_sin_quarter((PI_URAD as int) - theta))
    }
}

/// Taylor terms of the quarter-circle series, with their ranges.
fn cos_quarter(x: i64) -> (r: i64)
    requires
        0 <= x <= HALF_PI_URAD,
    ensures
        r == spec_cos_quarter(x as int),
        -2_000_000 <= r <= 2_000_000,
{
    proof {
        assert(x * x <= 1_570_796i64 * 1_570_796i64 && 0 <= x * x) by (nonlinear_arith)
            requires 0 <= x <= 1_570_796;
    }
    let x2 = x * x / SCALE;
    proof {
        vstd::arithmetic::div_mod::lemma_div_pos_is_pos(x * x, SCALE as int);
        vstd::arithmetic::div_mod::lemma_div_is_ordered(
            (x as int) * (x as int), 1_570_796i64 * 1_570_796i64, SCALE as int);
        assert(x2 * x2 <= 2_467_400i64 * 2_467_400i64 && 0 <= x2 * x2) by (nonlinear_arith)
            requires 0 <= x2 <= 2_467_400;
    }
    let x4 = x2 * x2 / SCALE;
    proof {
        vstd::arithmetic::div_mod::lemma_div_pos_is_pos(x2 * x2, SCALE as int);
        vstd::arithmetic::div_mod::lemma_div_is_ordered(
            (x2 as int) * (x2 as int), 2_467_400i64 * 2_467_400i64, SCALE as int);
        assert(x4 * x2 <= 6_088_064i64 * 2_467_400i64 && 0 <= x4 * x2) by (nonlinear_arith)
            requires 0 <= x4 <= 6_088_064, 0 <= x2 <= 2_467_400;
    }
    let x6 = x4 * x2 / SCALE;
    proof {
        vstd::arithmetic::div_mod::lemma_div_pos_is_pos(x4 * x2, SCALE as int);
        vstd::arithmetic::div_mod::lemma_div_is_ordered(
            (x4 as int) * (x2 as int), 6_088_064i64 * 2_467_400i64, SCALE as int);
    }
    SCALE - x2 / 2 + x4 / 24 - x6 / 720
}

/// Taylor sine on the first quarter circle.
fn sin_quarter(x: i64) -> (r: i64)
    requires
        0 <= x <= HALF_PI_URAD,
    ensures
        r == spec_sin_quarter(x as int),
        -2_000_000 <= r <= 2_000_000,
{
    proof {
        assert(x * x <= 1_570_796i64 * 1_570_796i64 && 0 <= x * x) by (nonlinear_arith)
            requires 0 <= x <= 1_570_796;
    }
    let x2 = x * x / SCALE;
    proof {
        vstd::arithmetic::div_mod::lemma_div_pos_is_pos(x * x, SCALE as int);
        vstd::arithmetic::div_mod::lemma_div_is_ordered(
            (x as int) * (x as int), 1_570_796i64 * 1_570_796i64, SCALE as int);
        assert(x * x2 <= 1_570_796i64 * 2_467_400i64 && 0 <= x * x2) by (nonlinear_arith)
            requires 0 <= x <= 1_570_796, 0 <= x2 <= 2_467_400;
    }
    let x3 = x * x2 / SCALE;
    proof {
        vstd::arithmetic::div_mod::lemma_div_pos_is_pos(x * x2, SCALE as int);
        vstd::arithmetic::div_mod::lemma_div_is_ordered(
            (x as int) * (x2 as int), 1_570_796i64 * 2_467_400i64, SCALE as int);
        assert(x3 * x2 <= 3_875_784i64 * 2_467_400i64 && 0 <= x3 * x2) by (nonlinear_arith)
            requires 0 <= x3 <= 3_875_784, 0 <= x2 <= 2_467_400;
    }
    let x5 = x3 * x2 / SCALE;
    proof {
        vstd::arithmetic::div_mod::lemma_div_pos_is_pos(x3 * x2, SCALE as int);
        vstd::arithmetic::div_mod::lemma_div_is_ordered(
            (x3 as int) * (x2 as int), 3_875_784i64 * 2_467_400i64, SCALE as int);
        assert(x5 * x2 <= 9_563_465i64 * 2_467_400i64 && 0 <= x5 * x2) by (nonlinear_arith)
            requires 0 <= x5 <= 9_563_465, 0 <= x2 <= 2_467_400;
    }
    let x7 = x5 * x2 / SCALE;
    proof {
        vstd::arithmetic::div_mod::lemma_div_pos_is_pos(x5 * x2, SCALE as int);
        vstd::arithmetic::div_mod::lemma_div_is_ordered(
            (x5 as int) * (x2 as int), 9_563_465i64 * 2_467_400i64, SCALE as int);
    }
    x - x3 / 6 + x5 / 120 - x7 / 5040
}

/// Executable cosine over micro-radians, clamped to the unit range.
pub fn cos_urad(theta: i64) -> (r: i64)
    requires
        0 <= theta <= PI_URAD,
    ensures
        r == spec_cos_urad(theta as int),
        -SCALE <= r <= SCALE,
{
    let raw = if theta <= HALF_PI_URAD {
        cos_quarter(theta)
    } else {
        -cos_quarter(PI_URAD - theta)
    };
    if raw > SCALE {
        SCALE
    } else if raw < -SCALE {
        -SCALE
    } else {
        raw
    }
}

/// Executable sine over micro-radians, clamped to the unit range.
pub fn sin_urad(theta: i64) -> (r: i64)
    requires
        0 <= theta <= PI_URAD,
    ensures
        r == spec_sin_urad(theta as int),
        -SCALE <= r <= SCALE,
{
    let raw = if theta <= HALF_PI_URAD {
        sin_quarter(theta)
    } else {
        sin_quarter(PI_URAD - theta)
    };
    if raw > SCALE {
        SCALE
    } else if raw < -SCALE {
        -SCALE
    } else {
        raw
    }
}

/// Cone (ball-socket) constraint: directions may deviate from the
/// reference by at most `max_angle` micro-radians.
#[derive(Clone, Copy, Debug, PartialEq, Eq, Structural)]
pub struct BallSocketConstraint {
    /// The cone half-angle in micro-radians.
    pub max_angle: i64,
    /// Cosine of the half-angle, in micro-units; derived at construction.
    pub cos_max: i64,
    /// Sine of the half-angle, in micro-units; derived at construction.
    pub sin_max: i64,
}

impl BallSocketConstraint {
    /// Build from a half-angle in micro-degrees.
    pub fn new(max_angle_degrees: i64) -> (r: BallSocketConstraint)
        requires
            0 <= max_angle_degrees <= 180_000_000,
        ensures
            r.max_angle == (max_angle_degrees as int) * (PI_URAD as int) / 180_000_000,
            r.cos_max == spec_cos_urad(r.max_angle as int),
            r.sin_max == spec_sin_urad(r.max_angle as int),
    {
        proof {
            assert(0 <= (max_angle_degrees as int) * (PI_URAD as int)
                && (max_angle_degrees as int) * (PI_URAD as int)
                    <= 180_000_000i64 * (PI_URAD as int)) by (nonlinear_arith)
                requires 0 <= max_angle_degrees <= 180_000_000;
            vstd::arithmetic::div_mod::lemma_div_pos_is_pos(
                (max_angle_degrees as int) * (PI_URAD as int), 180_000_000int);
            vstd::arithmetic::div_mod::lemma_div_is_ordered(
                (max_angle_degrees as int) * (PI_URAD as int),
                180_000_000i64 * (PI_URAD as int),
                180_000_000int);
            vstd::arithmetic::div_mod::lemma_div_multiples_vanish(
                PI_URAD as int, 180_000_000int);
        }
        let max_angle = max_angle_degrees * PI_URAD / 180_000_000;
        Self::from_radians(max_angle)
    }

    /// Build from a half-angle in micro-radians.
    pub fn from_radians(max_angle: i64) -> (r: BallSocketConstraint)
        requires
            0 <= max_angle <= PI_URAD,
        ensures
            r.max_angle == max_angle,
            r.cos_max == spec_cos_urad(max_angle as int),
            r.sin_max == spec_sin_urad(max_angle as int),
    {
        let cos_max = cos_urad(max_angle);
        let sin_max = sin_urad(max_angle);
        BallSocketConstraint { max_angle, cos_max, sin_max }
    }
}

/// Free (unconstrained) joint behaviour: directions are only normalized.
#[derive(Clone, Copy, Debug, PartialEq, Eq, Structural)]
pub struct NoConstraint;

impl NoConstraint {
    /// Normalize the candidate; the reference plays no part.
    pub fn apply(&self, direction: Vec3, _reference: Vec3) -> (r: Vec3)
        requires
            direction@.bounded(MAX_COORD as int),
        ensures
            r@ == spec_normalize(direction@),
            r@.bounded(SCALE as int),
    {
        normalize(direction)
    }
}

/// The clamped direction a cone constraint yields for a candidate
/// `direction` against a `reference`, both unnormalized.
pub open spec fn spec_cone_apply(c: BallSocketConstraint, direction: V3, reference: V3) -> V3 {
    let dir = spec_normalize(direction);
    let refd = spec_normalize(reference);
    if dir == (V3 { x: 0, y: 0, z: 0 }) || refd == (V3 { x: 0, y: 0, z: 0 }) {
        refd
    } else if spec_dot(dir, refd) >= (c.cos_max as int) * (SCALE as int) {
        dir
    } else {
        let axis_raw = spec_cross(refd, dir);
        let axis_small = V3 {
            x: spec_div_away(axis_raw.x, SCALE as int),
            y: spec_div_away(axis_raw.y, SCALE as int),
            z: spec_div_away(axis_raw.z, SCALE as int),
        };
        if sq(axis_small.x) + sq(axis_small.y) + sq(axis_small.z) < AXIS_EPS_SQ as int {
            refd
        } else {
            let axisn = spec_normalize(axis_small);
            let w = spec_cross(axisn, refd);
            V3 {
                x: spec_div_away(
                    refd.x * (c.cos_max as int) + spec_div_away(w.x * (c.sin_max as int), SCALE as int),
                    SCALE as int),
                y: spec_div_away(
                    refd.y * (c.cos_max as int) + spec_div_away(w.y * (c.sin_max as int), SCALE as int),
                    SCALE as int),
                z: spec_div_away(
                    refd.z * (c.cos_max as int) + spec_div_away(w.z * (c.sin_max as int), SCALE as int),
                    SCALE as int),
            }
        }
    }
}

impl BallSocketConstraint {
    /// Clamp `direction` to lie within the cone around `reference`:
    /// pass it through normalized when the angle between them is within
    /// the half-angle (cosine test), otherwise rotate the reference
    /// toward the candidate by the half-angle around their common
    /// perpendicular axis.
    pub fn apply(&self, direction: Vec3, reference: Vec3) -> (r: Vec3)
        requires
            direction@.bounded(MAX_COORD as int),
            reference@.bounded(MAX_COORD as int),
            -SCALE <= self.cos_max <= SCALE,
            -SCALE <= self.sin_max <= SCALE,
        ensures
            r@ == spec_cone_apply(*self, direction@, reference@),
            r@.bounded(9_000_000int),
    {
        let dir = normalize(direction);
        let refd = normalize(reference);
        let dir_zero = dir.x == 0 && dir.y == 0 && dir.z == 0;
        let refd_zero = refd.x == 0 && refd.y == 0 && refd.z == 0;
        if dir_zero || refd_zero {
            return refd;
        }
        let d = dot(dir, refd);
        proof {
            assert(-1_000_000_000_000 <= (self.cos_max as int) * (SCALE as int)
                && (self.cos_max as int) * (SCALE as int) <= 1_000_000_000_000)
                by (nonlinear_arith)
                requires -1_000_000 <= self.cos_max <= 1_000_000;
        }
        if d >= self.cos_max * SCALE {
            return dir;
        }
        let axis_raw = cross(refd, dir);
        let ax = div_away(axis_raw.x, SCALE);
        let ay = div_away(axis_raw.y, SCALE);
        let az = div_away(axis_raw.z, SCALE);
        let axis_small = Vec3 { x: ax, y: ay, z: az };
        proof {
            lemma_shrink_bound(axis_raw.x as int, ax as int);
            lemma_shrink_bound(axis_raw.y as int, ay as int);
            lemma_shrink_bound(axis_raw.z as int, az as int);
        }
        let a2 = dot(axis_small, axis_small);
        proof {
            assert(spec_dot(axis_small@, axis_small@)
                == sq(axis_small@.x) + sq(axis_small@.y) + sq(axis_small@.z));
        }
        if a2 < AXIS_EPS_SQ {
            return refd;
        }
        let axisn = normalize(axis_small);
        let w = cross(axisn, refd);
        let rx = rotate_comp(refd.x, w.x, self.cos_max, self.sin_max);
        let ry = rotate_comp(refd.y, w.y, self.cos_max, self.sin_max);
        let rz = rotate_comp(refd.z, w.z, self.cos_max, self.sin_max);
        Vec3 { x: rx, y: ry, z: rz }
    }
}

/// Dividing by `SCALE` with away-from-zero rounding keeps the magnitude
/// within one more than the shrunk bound.
proof fn lemma_shrink_bound(a: int, r: int)
    requires
        -2_000_000_000_000 <= a <= 2_000_000_000_000,
        r == spec_div_away(a, SCALE as int),
    ensures
        -2_000_001 <= r <= 2_000_001,
{
    if a >= 0 {
        crate::fixed::lemma_div_ceil_le_mul(a, SCALE as int, 2_000_001int);
        vstd::arithmetic::div_mod::lemma_div_pos_is_pos(a + (SCALE as int) - 1, SCALE as int);
    } else {
        crate::fixed::lemma_div_ceil_le_mul(-a, SCALE as int, 2_000_001int);
        vstd::arithmetic::div_mod::lemma_div_pos_is_pos(-a + (SCALE as int) - 1, SCALE as int);
    }
}

/// One component of the cone rotation: `(refc * cos + (wc * sin) / SCALE) / SCALE`,
/// both divisions rounding away from zero.
fn rotate_comp(refc: i64, wc: i64, cos_max: i64, sin_max: i64) -> (r: i64)
    requires
        -1_000_001 <= refc <= 1_000_001,
        -2_000_000_000_000 <= wc <= 2_000_000_000_000,
        -SCALE <= cos_max <= SCALE,
        -SCALE <= sin_max <= SCALE,
    ensures
        r == spec_div_away(
            (refc as int) * (cos_max as int)
                + spec_div_away((wc as int) * (sin_max as int), SCALE as int),
            SCALE as int),
        -9_000_000 <= r <= 9_000_000,
{
    proof {
        assert(-2_000_000_000_000_000_000 <= (wc as int) * (sin_max as int)
            && (wc as int) * (sin_max as int) <= 2_000_000_000_000_000_000) by (nonlinear_arith)
            requires
                -2_000_000_000_000 <= wc <= 2_000_000_000_000,
                -1_000_000 <= sin_max <= 1_000_000;
    }
    let scaled_w = div_away(wc * sin_max, SCALE);
    proof {
        if wc * sin_max >= 0 {
            crate::fixed::lemma_div_ceil_le_mul(
                (wc as int) * (sin_max as int), SCALE as int, 2_000_000_000_000int);
            vstd::arithmetic::div_mod::lemma_div_pos_is_pos(
                (wc as int) * (sin_max as int) + (SCALE as int) - 1, SCALE as int);
        } else {
            crate::fixed::lemma_div_ceil_le_mul(
                -((wc as int) * (sin_max as int)), SCALE as int, 2_000_000_000_000int);
            vstd::arithmetic::div_mod::lemma_div_pos_is_pos(
                -((wc as int) * (sin_max as int)) + (SCALE as int) - 1, SCALE as int);
        }
        assert(-1_100_000_000_000 <= (refc as int) * (cos_max as int)
            && (refc as int) * (cos_max as int) <= 1_100_000_000_000) by (nonlinear_arith)
            requires
                -1_000_001 <= refc <= 1_000_001,
                -1_000_000 <= cos_max <= 1_000_000;
    }
    let num = refc * cos_max + scaled_w;
    let r = div_away(num, SCALE);
    proof {
        if num >= 0 {
            crate::fixed::lemma_div_ceil_le_mul(num as int, SCALE as int, 9_000_000int);
            vstd::arithmetic::div_mod::lemma_div_pos_is_pos(
                (num as int) + (SCALE as int) - 1, SCALE as int);
        } else {
            crate::fixed::lemma_div_ceil_le_mul(-(num as int), SCALE as int, 9_000_000int);
            vstd::arithmetic::div_mod::lemma_div_pos_is_pos(
                -(num as int) + (SCALE as int) - 1, SCALE as int);
        }
    }
    r
}

/// A joint constraint: free, or limited to a cone about the parent bone.
#[derive(Clone, Copy, Debug, PartialEq, Eq, Structural)]
pub enum Constraint {
    /// No angular limit; directions are only normalized.
    Free(NoConstraint),
    /// Cone-limited (ball-socket) joint.
    Cone(BallSocketConstraint),
}

/// What a constraint yields for a candidate direction and a reference.
pub open spec fn spec_apply_constraint(c: Constraint, direction: V3, reference: V3) -> V3 {
    match c {
        Constraint::Free(_) => spec_normalize(direction),
        Constraint::Cone(b) => spec_cone_apply(b, direction, reference),
    }
}

impl Constraint {
    /// Whether the stored trigonometric pair is in the unit range; true
    /// of every constraint built by the public constructors.
    pub open spec fn wf(self) -> bool {
        match self {
            Constraint::Free(_) => true,
            Constraint::Cone(b) => {
                &&& -SCALE <= b.cos_max <= SCALE
                &&& -SCALE <= b.sin_max <= SCALE
            },
        }
    }

    /// Decide well-formedness at run time.
    pub fn is_well_formed(&self) -> (b: bool)
        ensures
            b == self.wf(),
    {
        match self {
            Constraint::Free(_) => true,
            Constraint::Cone(b) => {
                -SCALE <= b.cos_max && b.cos_max <= SCALE && -SCALE <= b.sin_max && b.sin_max
                    <= SCALE
            },
        }
    }

    /// Clamp `direction` against this constraint.
    pub fn apply(&self, direction: Vec3, reference: Vec3) -> (r: Vec3)
        requires
            self.wf(),
            direction@.bounded(MAX_COORD as int),
            reference@.bounded(MAX_COORD as int),
        ensures
            r@ == spec_apply_constraint(*self, direction@, reference@),
            r@.bounded(9_000_000int),
    {
        match self {
            Constraint::Free(n) => n.apply(direction, reference),
            Constraint::Cone(b) => b.apply(direction, reference),
        }
    }
}

} // verus!
