//! Critically damped second-order smoothing.
//!
//! `SecondOrderDynamics` filters a stream of raw inputs (a scalar or a
//! vector) into a smooth trajectory, parameterized by a natural
//! frequency `f`, a damping ratio `z` and an initial-response
//! coefficient `r`.  All state lives in saturating fixed-point
//! micro-units, so an update can never overflow and every step is an
//! exact function of the previous state.

use vstd::prelude::*;
use crate::fixed::sat_add;
use crate::fixed::sat_scale;
use crate::fixed::spec_clamp;
use crate::fixed::spec_sat_scale;
use crate::fixed::SCALE;
use crate::fixed::SAT_LIMIT;
use crate::vec3::Vec3;
use crate::constraint::PI_URAD;

verus! {

/// Lowest accepted natural frequency, micro-hertz.
pub const MIN_FREQUENCY: i64 = 1_000;

/// Highest accepted natural frequency, micro-hertz.
pub const MAX_FREQUENCY: i64 = 100_000_000;

/// Bound on the damping ratio and the response coefficient magnitude.
pub const MAX_RATIO: i64 = 100_000_000;

/// Largest accepted timestep, micro-seconds.
pub const MAX_TIMESTEP: i64 = 10_000_000;

/// A quantity the filter can smooth: it needs a zero, saturating
/// addition and subtraction, and saturating fixed-point scaling.
pub trait Interpolatable: Sized + Copy {
    /// The zero value.
    spec fn sp_zero() -> Self;

    /// Saturating componentwise sum.
    spec fn sp_add(self, other: Self) -> Self;

    /// Saturating componentwise difference.
    spec fn sp_sub(self, other: Self) -> Self;

    /// Saturating componentwise scaling by a micro-unit factor.
    spec fn sp_scale(self, factor: i64) -> Self;

    /// Every component within the saturation range.
    spec fn sp_ok(self) -> bool;

    /// The zero value.
    fn zero() -> (r: Self)
        ensures
            r == Self::sp_zero(),
            r.sp_ok(),
    ;

    /// Saturating sum.
    fn add(self, other: Self) -> (r: Self)
        requires
            self.sp_ok(),
            other.sp_ok(),
        ensures
            r == self.sp_add(other),
            r.sp_ok(),
    ;

    /// Saturating difference.
    fn sub(self, other: Self) -> (r: Self)
        requires
            self.sp_ok(),
            other.sp_ok(),
        ensures
            r == self.sp_sub(other),
            r.sp_ok(),
    ;

    /// Saturating scaling by `factor` micro-units.
    fn scale(self, factor: i64) -> (r: Self)
        requires
            self.sp_ok(),
            -SAT_LIMIT <= factor <= SAT_LIMIT,
        ensures
            r == self.sp_scale(factor),
            r.sp_ok(),
    ;
}

impl Interpolatable for i64 {
    open spec fn sp_zero() -> i64 {
        0
    }

    open spec fn sp_add(self, other: i64) -> i64 {
        spec_clamp(self + other) as i64
    }

    open spec fn sp_sub(self, other: i64) -> i64 {
        spec_clamp(self - other) as i64
    }

    open spec fn sp_scale(self, factor: i64) -> i64 {
        spec_sat_scale(self as int, factor as int) as i64
    }

    open spec fn sp_ok(self) -> bool {
        -SAT_LIMIT <= self <= SAT_LIMIT
    }

    fn zero() -> (r: i64) {
        0
    }

    fn add(self, other: i64) -> (r: i64) {
        sat_add(self, other)
    }

    fn sub(self, other: i64) -> (r: i64) {
        sat_add(self, -other)
    }

    fn scale(self, factor: i64) -> (r: i64) {
        sat_scale(self, factor)
    }
}

impl Interpolatable for Vec3 {
    open spec fn sp_zero() -> Vec3 {
        Vec3 { x: 0, y: 0, z: 0 }
    }

    open spec fn sp_add(self, other: Vec3) -> Vec3 {
        Vec3 {
            x: spec_clamp(self.x + other.x) as i64,
            y: spec_clamp(self.y + other.y) as i64,
            z: spec_clamp(self.z + other.z) as i64,
        }
    }

    open spec fn sp_sub(self, other: Vec3) -> Vec3 {
        Vec3 {
            x: spec_clamp(self.x - other.x) as i64,
            y: spec_clamp(self.y - other.y) as i64,
            z: spec_clamp(self.z - other.z) as i64,
        }
    }

    open spec fn sp_scale(self, factor: i64) -> Vec3 {
        Vec3 {
            x: spec_sat_scale(self.x as int, factor as int) as i64,
            y: spec_sat_scale(self.y as int, factor as int) as i64,
            z: spec_sat_scale(self.z as int, factor as int) as i64,
        }
    }

    open spec fn sp_ok(self) -> bool {
        &&& -SAT_LIMIT <= self.x <= SAT_LIMIT
        &&& -SAT_LIMIT <= self.y <= SAT_LIMIT
        &&& -SAT_LIMIT <= self.z <= SAT_LIMIT
    }

    fn zero() -> (r: Vec3) {
        Vec3 { x: 0, y: 0, z: 0 }
    }

    fn add(self, other: Vec3) -> (r: Vec3) {
        Vec3 {
            x: sat_add(self.x, other.x),
            y: sat_add(self.y, other.y),
            z: sat_add(self.z, other.z),
        }
    }

    fn sub(self, other: Vec3) -> (r: Vec3) {
        Vec3 {
            x: sat_add(self.x, -other.x),
            y: sat_add(self.y, -other.y),
            z: sat_add(self.z, -other.z),
        }
    }

    fn scale(self, factor: i64) -> (r: Vec3) {
        Vec3 {
            x: sat_scale(self.x, factor),
            y: sat_scale(self.y, factor),
            z: sat_scale(self.z, factor),
        }
    }
}

/// Named parameter triples `(f, z, r)`, in micro-units.
#[derive(Clone, Copy, Debug, PartialEq, Eq, Structural)]
pub enum SpringPreset {
    /// Fast and slightly underdamped.
    Snappy,
    /// Critically damped.
    Smooth,
    /// Strongly underdamped.
    Bouncy,
    /// Slow and overdamped.
    Sluggish,
    /// Anticipates motion with a negative initial response.
    Anticipate,
}

impl SpringPreset {
    /// The `(frequency, damping, response)` triple of the preset.
    pub fn params(self) -> (r: (i64, i64, i64))
        ensures
            self is Snappy ==> r == (4_000_000i64, 500_000i64, 2_000_000i64),
            self is Smooth ==> r == (2_000_000i64, 1_000_000i64, 0i64),
            self is Bouncy ==> r == (3_000_000i64, 300_000i64, 1_000_000i64),
            self is Sluggish ==> r == (1_000_000i64, 1_500_000i64, 0i64),
            self is Anticipate ==> r == (3_000_000i64, 800_000i64, -500_000i64),
            MIN_FREQUENCY <= r.0 <= MAX_FREQUENCY,
            0 <= r.1 <= MAX_RATIO,
            -MAX_RATIO <= r.2 <= MAX_RATIO,
    {
        match self {
            SpringPreset::Snappy => (4_000_000, 500_000, 2_000_000),
            SpringPreset::Smooth => (2_000_000, 1_000_000, 0),
            SpringPreset::Bouncy => (3_000_000, 300_000, 1_000_000),
            SpringPreset::Sluggish => (1_000_000, 1_500_000, 0),
            SpringPreset::Anticipate => (3_000_000, 800_000, -500_000),
        }
    }
}

/// The three derived filter coefficients for `(f, z, r)`.
pub open spec fn spec_constants(f: int, z: int, r: int) -> (int, int, int) {
    let pi_f = (PI_URAD as int) * f / (SCALE as int);
    let w = 2 * (PI_URAD as int) * f / (SCALE as int);
    let k1 = z * (SCALE as int) / pi_f;
    let k2 = (SCALE as int) * (SCALE as int) * (SCALE as int) / (w * w);
    let k3 = spec_sat_scale(r, k1);
    (k1, k2, k3)
}

/// One filter step over the state `(y, yd, xp)`: the new state, as an
/// exact function of the previous one, the input and the timestep.
pub open spec fn spec_update<T: Interpolatable>(
    y: T,
    yd: T,
    xp: T,
    k1: i64,
    k2: i64,
    k3: i64,
    x: T,
    dt: i64,
) -> (T, T, T) {
    let inv_dt = ((SCALE as int) * (SCALE as int) / (dt as int)) as i64;
    let xd = x.sp_sub(xp).sp_scale(inv_dt);
    let a = spec_sat_scale(dt as int, dt as int);
    let b = spec_sat_scale(dt as int, k1 as int);
    let stab = if a / 2 + b / 2 > b { a / 2 + b / 2 } else { b };
    let k2_stable = if k2 as int > stab { k2 as int } else { stab };
    let inv_k2 = ((SCALE as int) * (SCALE as int) / k2_stable) as i64;
    let y1 = y.sp_add(yd.sp_scale(dt));
    let accel = x.sp_add(xd.sp_scale(k3)).sp_sub(y1).sp_sub(yd.sp_scale(k1)).sp_scale(inv_k2);
    let yd1 = yd.sp_add(accel.sp_scale(dt));
    (y1, yd1, x)
}

/// A second-order critically-damped filter instance.
#[derive(Clone, Copy, Debug)]
pub struct SecondOrderDynamics<T: Interpolatable> {
    /// Current filtered value.
    pub y: T,
    /// Current velocity estimate.
    pub yd: T,
    /// Previous raw input.
    pub xp: T,
    /// First derived coefficient, `z / (pi f)`.
    pub k1: i64,
    /// Second derived coefficient, `1 / (2 pi f)^2`.
    pub k2: i64,
    /// Third derived coefficient, `r z / (pi f)`.
    pub k3: i64,
}

impl<T: Interpolatable> SecondOrderDynamics<T> {
    /// Saturation-range state and coefficients, with `k2` positive.
    pub open spec fn wf(self) -> bool {
        &&& self.y.sp_ok()
        &&& self.yd.sp_ok()
        &&& self.xp.sp_ok()
        &&& 0 <= self.k1 <= SAT_LIMIT
        &&& 1 <= self.k2 <= SAT_LIMIT
        &&& -SAT_LIMIT <= self.k3 <= SAT_LIMIT
    }

    /// Build a filter from physical parameters and an initial value.
    pub fn new(f: i64, z: i64, r: i64, initial: T) -> (s: Self)
        requires
            MIN_FREQUENCY <= f <= MAX_FREQUENCY,
            0 <= z <= MAX_RATIO,
            -MAX_RATIO <= r <= MAX_RATIO,
            initial.sp_ok(),
        ensures
            s.y == initial,
            s.yd == T::sp_zero(),
            s.xp == initial,
            (s.k1 as int, s.k2 as int, s.k3 as int) == spec_constants(
                f as int, z as int, r as int),
            s.wf(),
    {
        let (k1, k2, k3) = Self::compute_constants(f, z, r);
        SecondOrderDynamics { y: initial, yd: T::zero(), xp: initial, k1, k2, k3 }
    }

    /// Build a filter from a named preset.
    pub fn from_preset(preset: SpringPreset, initial: T) -> (s: Self)
        requires
            initial.sp_ok(),
        ensures
            s.y == initial,
            s.yd == T::sp_zero(),
            s.xp == initial,
            s.wf(),
    {
        let (f, z, r) = preset.params();
        Self::new(f, z, r, initial)
    }

    /// Derive the three coefficients from `(f, z, r)`.
    fn compute_constants(f: i64, z: i64, r: i64) -> (k: (i64, i64, i64))
        requires
            MIN_FREQUENCY <= f <= MAX_FREQUENCY,
            0 <= z <= MAX_RATIO,
            -MAX_RATIO <= r <= MAX_RATIO,
        ensures
            (k.0 as int, k.1 as int, k.2 as int) == spec_constants(f as int, z as int, r as int),
            0 <= k.0 <= SAT_LIMIT,
            1 <= k.1 <= SAT_LIMIT,
            -SAT_LIMIT <= k.2 <= SAT_LIMIT,
    {
        proof {
            assert((PI_URAD as int) * (f as int) <= 3_141_593i64 * 100_000_000i64
                && (PI_URAD as int) * (f as int) >= 3_141_593i64 * 1_000i64)
                by (nonlinear_arith)
                requires 1_000 <= f <= 100_000_000;
        }
        let pi_f = PI_URAD * f / SCALE;
        proof {
            vstd::arithmetic::div_mod::lemma_div_pos_is_pos((PI_URAD as int) * (f as int),
                SCALE as int);
            vstd::arithmetic::div_mod::lemma_div_is_ordered(3_141_593i64 * 1_000i64,
                (PI_URAD as int) * (f as int), SCALE as int);
            vstd::arithmetic::div_mod::lemma_div_is_ordered((PI_URAD as int) * (f as int),
                3_141_593i64 * 100_000_000i64, SCALE as int);
            assert(3_141_593i64 * 1_000i64 / (SCALE as int) == 3141);
            assert((z as int) * (SCALE as int) <= 100_000_000i64 * 1_000_000i64
                && 0 <= (z as int) * (SCALE as int)) by (nonlinear_arith)
                requires 0 <= z <= 100_000_000;
        }
        let k1 = z * SCALE / pi_f;
        proof {
            vstd::arithmetic::div_mod::lemma_div_pos_is_pos((z as int) * (SCALE as int),
                pi_f as int);
            vstd::arithmetic::div_mod::lemma_div_is_ordered_by_denominator(
                (z as int) * (SCALE as int), 3141, pi_f as int);
            vstd::arithmetic::div_mod::lemma_div_is_ordered(
                (z as int) * (SCALE as int), 100_000_000_000_000int, 3141);
            assert(2 * (PI_URAD as int) * (f as int) <= 2 * 3_141_593i64 * 100_000_000i64
                && 2 * (PI_URAD as int) * (f as int) >= 2 * 3_141_593i64 * 1_000i64)
                by (nonlinear_arith)
                requires 1_000 <= f <= 100_000_000;
        }
        let w = 2 * PI_URAD * f / SCALE;
        proof {
            vstd::arithmetic::div_mod::lemma_div_pos_is_pos(2 * (PI_URAD as int) * (f as int),
                SCALE as int);
            vstd::arithmetic::div_mod::lemma_div_is_ordered(2 * 3_141_593i64 * 1_000i64,
                2 * (PI_URAD as int) * (f as int), SCALE as int);
            vstd::arithmetic::div_mod::lemma_div_is_ordered(2 * (PI_URAD as int) * (f as int),
                2 * 3_141_593i64 * 100_000_000i64, SCALE as int);
            assert(2 * 3_141_593i64 * 1_000i64 / (SCALE as int) == 6283);
            assert(2 * 3_141_593i64 * 100_000_000i64 / (SCALE as int) == 628_318_600);
            assert((w as int) * (w as int) >= 6283i64 * 6283i64
                && (w as int) * (w as int) <= 628_318_600i64 * 628_318_600i64)
                by (nonlinear_arith)
                requires 6283 <= w <= 628_318_600;
        }
        let w2 = w * w;
        let k2 = SCALE * SCALE * SCALE / w2;
        proof {
            vstd::arithmetic::div_mod::lemma_div_pos_is_pos(
                (SCALE as int) * (SCALE as int) * (SCALE as int), w2 as int);
            vstd::arithmetic::div_mod::lemma_div_is_ordered_by_denominator(
                (SCALE as int) * (SCALE as int) * (SCALE as int), 6283i64 * 6283i64, w2 as int);
            vstd::arithmetic::div_mod::lemma_div_is_ordered_by_denominator(
                (SCALE as int) * (SCALE as int) * (SCALE as int), w2 as int,
                628_318_600i64 * 628_318_600i64);
            assert((SCALE as int) * (SCALE as int) * (SCALE as int)
                / (628_318_600i64 * 628_318_600i64) >= 1);
            assert((SCALE as int) * (SCALE as int) * (SCALE as int) / (6283i64 * 6283i64)
                <= SAT_LIMIT);
        }
        let k3 = sat_scale(r, k1);
        (k1, k2, k3)
    }

    /// Re-derive the coefficients without resetting the state.
    pub fn set_parameters(&mut self, f: i64, z: i64, r: i64)
        requires
            MIN_FREQUENCY <= f <= MAX_FREQUENCY,
            0 <= z <= MAX_RATIO,
            -MAX_RATIO <= r <= MAX_RATIO,
            old(self).wf(),
        ensures
            final(self).y == old(self).y,
            final(self).yd == old(self).yd,
            final(self).xp == old(self).xp,
            (final(self).k1 as int, final(self).k2 as int, final(self).k3 as int)
                == spec_constants(f as int, z as int, r as int),
            final(self).wf(),
    {
        let (k1, k2, k3) = Self::compute_constants(f, z, r);
        self.k1 = k1;
        self.k2 = k2;
        self.k3 = k3;
    }

    /// Hard-reset the filtered value, the velocity and the previous
    /// input to a new baseline.
    pub fn reset(&mut self, value: T)
        requires
            value.sp_ok(),
            old(self).wf(),
        ensures
            final(self).y == value,
            final(self).yd == T::sp_zero(),
            final(self).xp == value,
            final(self).k1 == old(self).k1,
            final(self).k2 == old(self).k2,
            final(self).k3 == old(self).k3,
            final(self).wf(),
    {
        self.y = value;
        self.yd = T::zero();
        self.xp = value;
    }

    /// Advance the filter by `dt` micro-seconds toward the raw input
    /// `x`, returning the new filtered value.  A non-positive timestep
    /// is a no-op.
    pub fn update(&mut self, x: T, dt: i64) -> (r: T)
        requires
            old(self).wf(),
            x.sp_ok(),
            dt <= MAX_TIMESTEP,
        ensures
            final(self).wf(),
            final(self).k1 == old(self).k1,
            final(self).k2 == old(self).k2,
            final(self).k3 == old(self).k3,
            dt <= 0 ==> *final(self) == *old(self) && r == old(self).y,
            dt > 0 ==> {
                let next = spec_update(
                    old(self).y, old(self).yd, old(self).xp, old(self).k1, old(self).k2,
                    old(self).k3, x, dt);
                &&& final(self).y == next.0
                &&& final(self).yd == next.1
                &&& final(self).xp == next.2
                &&& r == next.0
            },
    {
        if dt <= 0 {
            return self.y;
        }
        proof {
            vstd::arithmetic::div_mod::lemma_div_pos_is_pos(
                (SCALE as int) * (SCALE as int), dt as int);
            vstd::arithmetic::div_mod::lemma_div_is_ordered_by_denominator(
                (SCALE as int) * (SCALE as int), 1, dt as int);
        }
        let inv_dt = SCALE * SCALE / dt;
        let xd = x.sub(self.xp).scale(inv_dt);
        self.xp = x;
        let a = sat_scale(dt, dt);
        let b = sat_scale(dt, self.k1);
        proof {
            assert(0 <= spec_sat_scale(dt as int, dt as int)) by {
                assert((dt as int) * (dt as int) >= 0) by (nonlinear_arith);
                vstd::arithmetic::div_mod::lemma_div_pos_is_pos(
                    (dt as int) * (dt as int), SCALE as int);
            }
            assert(0 <= spec_sat_scale(dt as int, self.k1 as int)) by {
                assert((dt as int) * (self.k1 as int) >= 0) by (nonlinear_arith)
                    requires dt >= 0, self.k1 >= 0;
                vstd::arithmetic::div_mod::lemma_div_pos_is_pos(
                    (dt as int) * (self.k1 as int), SCALE as int);
            }
        }
        let half_sum = a / 2 + b / 2;
        let stab = if half_sum > b {
            half_sum
        } else {
            b
        };
        let k2_stable = if self.k2 > stab {
            self.k2
        } else {
            stab
        };
        proof {
            vstd::arithmetic::div_mod::lemma_div_pos_is_pos(
                (SCALE as int) * (SCALE as int), k2_stable as int);
            vstd::arithmetic::div_mod::lemma_div_is_ordered_by_denominator(
                (SCALE as int) * (SCALE as int), 1, k2_stable as int);
        }
        let inv_k2 = SCALE * SCALE / k2_stable;
        let y1 = self.y.add(self.yd.scale(dt));
        let accel = x.add(xd.scale(self.k3)).sub(y1).sub(self.yd.scale(self.k1)).scale(inv_k2);
        let yd1 = self.yd.add(accel.scale(dt));
        self.y = y1;
        self.yd = yd1;
        y1
    }

    /// The current filtered value.
    pub fn current(&self) -> (r: T)
        ensures
            r == self.y,
    {
        self.y
    }

    /// The current velocity estimate.
    pub fn velocity(&self) -> (r: T)
        ensures
            r == self.yd,
    {
        self.yd
    }
}

} // verus!
