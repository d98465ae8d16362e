//! The second-order filter, in micro-units and micro-seconds.

use fabrik::SecondOrderDynamics;
use fabrik::SpringPreset;
use fabrik::Vec3;

#[test]
fn critically_damped_step_settles_without_overshoot() {
    // f = 1 Hz, z = 1 (critical), r = 0, a constant unit step driven
    // at 16 ms: the output approaches the input and never overshoots
    // materially.
    let mut filter: SecondOrderDynamics<i64> = SecondOrderDynamics::new(1_000_000, 1_000_000, 0, 0);
    let mut y: i64 = 0;
    for _ in 0..600 {
        y = filter.update(1_000_000, 16_000);
        assert!(y <= 1_001_000, "overshoot to {}", y);
    }
    assert!((y - 1_000_000).abs() <= 2_000, "settled at {}", y);
}

#[test]
fn underdamped_step_overshoots_then_settles() {
    // z = 0.3: the output crosses the input at least once, then comes
    // back close to it.
    let mut filter: SecondOrderDynamics<i64> = SecondOrderDynamics::new(2_000_000, 300_000, 0, 0);
    let mut crossed = false;
    let mut y: i64 = 0;
    for _ in 0..1_000 {
        y = filter.update(1_000_000, 16_000);
        if y > 1_000_000 {
            crossed = true;
        }
    }
    assert!(crossed, "no overshoot observed");
    assert!((y - 1_000_000).abs() <= 10_000, "settled at {}", y);
}

#[test]
fn non_positive_timestep_is_a_no_op() {
    let mut filter: SecondOrderDynamics<i64> = SecondOrderDynamics::new(1_000_000, 1_000_000, 0, 42);
    assert_eq!(filter.update(1_000_000, 0), 42);
    assert_eq!(filter.update(1_000_000, -5), 42);
    assert_eq!(filter.current(), 42);
    assert_eq!(filter.velocity(), 0);
}

#[test]
fn reset_restores_a_baseline() {
    let mut filter: SecondOrderDynamics<i64> = SecondOrderDynamics::new(1_000_000, 1_000_000, 0, 0);
    for _ in 0..10 {
        filter.update(1_000_000, 16_000);
    }
    filter.reset(500_000);
    assert_eq!(filter.current(), 500_000);
    assert_eq!(filter.velocity(), 0);
}

#[test]
fn vector_filter_tracks_a_vector_step() {
    let mut filter: SecondOrderDynamics<Vec3> =
        SecondOrderDynamics::new(1_000_000, 1_000_000, 0, Vec3::new(0, 0, 0));
    let goal = Vec3::new(1_000_000, -2_000_000, 500_000);
    let mut y = Vec3::new(0, 0, 0);
    for _ in 0..600 {
        y = filter.update(goal, 16_000);
    }
    assert!((y.x - goal.x).abs() <= 2_000);
    assert!((y.y - goal.y).abs() <= 4_000);
    assert!((y.z - goal.z).abs() <= 2_000);
}

#[test]
fn presets_carry_documented_parameters() {
    assert_eq!(SpringPreset::Snappy.params(), (4_000_000, 500_000, 2_000_000));
    assert_eq!(SpringPreset::Smooth.params(), (2_000_000, 1_000_000, 0));
    assert_eq!(SpringPreset::Bouncy.params(), (3_000_000, 300_000, 1_000_000));
    assert_eq!(SpringPreset::Sluggish.params(), (1_000_000, 1_500_000, 0));
    assert_eq!(SpringPreset::Anticipate.params(), (3_000_000, 800_000, -500_000));
}

#[test]
fn preset_filter_settles() {
    let mut filter: SecondOrderDynamics<i64> = SecondOrderDynamics::from_preset(SpringPreset::Smooth, 0);
    let mut y: i64 = 0;
    for _ in 0..600 {
        y = filter.update(1_000_000, 16_000);
    }
    assert!((y - 1_000_000).abs() <= 2_000, "settled at {}", y);
}

#[test]
fn derived_coefficients_are_exact() {
    // f = 1 Hz, z = 1, r = 0: k1 = z / (pi f) and k2 = 1 / (2 pi f)^2
    // come out as their exact fixed-point values.
    let filter: SecondOrderDynamics<i64> = SecondOrderDynamics::new(1_000_000, 1_000_000, 0, 0);
    assert_eq!(filter.k1, 318_309);
    assert_eq!(filter.k2, 25_330);
    assert_eq!(filter.k3, 0);
}

#[test]
fn set_parameters_keeps_state() {
    let mut filter: SecondOrderDynamics<i64> = SecondOrderDynamics::new(1_000_000, 1_000_000, 0, 0);
    for _ in 0..50 {
        filter.update(1_000_000, 16_000);
    }
    let y_before = filter.current();
    filter.set_parameters(3_000_000, 500_000, 0);
    assert_eq!(filter.current(), y_before);
}
