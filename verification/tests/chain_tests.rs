//! Chain construction, queries and joint constraints, in micro-units.

use fabrik::BallSocketConstraint;
use fabrik::ChainBuilder;
use fabrik::Constraint;
use fabrik::Joint;
use fabrik::NoConstraint;
use fabrik::Vec3;

fn v(x: i64, y: i64, z: i64) -> Vec3 {
    Vec3::new(x, y, z)
}

fn angle_between_units(a: Vec3, b: Vec3) -> f64 {
    let dot = (a.x as f64 * b.x as f64 + a.y as f64 * b.y as f64 + a.z as f64 * b.z as f64)
        / 1e12;
    dot.clamp(-1.0, 1.0).acos()
}

#[test]
fn chain_query_surface() {
    let chain = ChainBuilder::new()
        .add_joint(v(0, 0, 0))
        .add_joint(v(1_000_000, 0, 0))
        .add_joint(v(2_000_000, 0, 0))
        .tolerance(500)
        .max_iterations(7)
        .build();
    assert_eq!(chain.joint_count(), 3);
    assert_eq!(chain.base().unwrap(), v(0, 0, 0));
    assert_eq!(chain.end_effector().unwrap(), v(2_000_000, 0, 0));
    assert_eq!(chain.tolerance(), 500);
    assert_eq!(chain.max_iterations(), 7);
    assert_eq!(chain.bone_lengths(), &vec![1_000_000, 1_000_000]);
    assert_eq!(chain.total_length(), 2_000_000);
    assert_eq!(chain.positions(), vec![v(0, 0, 0), v(1_000_000, 0, 0), v(2_000_000, 0, 0)]);
    assert_eq!(chain.joints().len(), 3);
}

#[test]
fn empty_chain_queries() {
    let chain = ChainBuilder::new().build();
    assert_eq!(chain.joint_count(), 0);
    assert!(chain.base().is_none());
    assert!(chain.end_effector().is_none());
    assert_eq!(chain.total_length(), 0);
}

#[test]
fn set_joint_position_moves_one_joint() {
    let mut chain = ChainBuilder::new()
        .add_joint(v(0, 0, 0))
        .add_joint(v(1_000_000, 0, 0))
        .build();
    chain.set_joint_position(1, v(900_000, 100_000, 0));
    assert_eq!(chain.positions()[1], v(900_000, 100_000, 0));
    assert_eq!(chain.positions()[0], v(0, 0, 0));
    // The frozen bone length is not re-measured.
    assert_eq!(chain.bone_lengths()[0], 1_000_000);
}

#[test]
fn joint_constraint_lifecycle() {
    let mut j = Joint::new(v(0, 0, 0));
    assert!(j.constraint.is_none());
    let cone = Constraint::Cone(BallSocketConstraint::new(45_000_000));
    j.set_constraint(cone);
    assert!(j.constraint.is_some());
    j.clear_constraint();
    assert!(j.constraint.is_none());
    let with = Joint::new(v(0, 0, 0)).with_constraint(cone);
    assert!(with.constraint.is_some());
}

#[test]
fn free_joint_normalizes_directions() {
    let j = Joint::new(v(0, 0, 0));
    // An unconstrained joint just normalizes: two units along x
    // becomes the unit x direction.
    let r = j.apply_constraint(v(2_000_000, 0, 0), v(0, 1_000_000, 0));
    assert_eq!(r, v(1_000_000, 0, 0));
    let free = NoConstraint;
    assert_eq!(free.apply(v(0, 0, -3_000_000), v(0, 1_000_000, 0)), v(0, 0, -1_000_000));
}

#[test]
fn cone_constraint_passes_directions_inside_the_cone() {
    let cone = BallSocketConstraint::new(60_000_000);
    // 45 degrees off the reference, within a 60-degree cone.
    let r = cone.apply(v(1_000_000, 1_000_000, 0), v(1_000_000, 0, 0));
    let expected_angle = angle_between_units(r, v(1_000_000, 0, 0));
    assert!((expected_angle - std::f64::consts::FRAC_PI_4).abs() < 0.01);
}

#[test]
fn cone_constraint_clamps_directions_outside_the_cone() {
    let cone = BallSocketConstraint::new(30_000_000);
    // 90 degrees off a 30-degree cone: the result comes back at about
    // the cone half-angle from the reference.
    let r = cone.apply(v(0, 1_000_000, 0), v(1_000_000, 0, 0));
    let angle = angle_between_units(r, v(1_000_000, 0, 0));
    assert!((angle - std::f64::consts::FRAC_PI_6).abs() < 0.02, "clamped to {}", angle);
}

#[test]
fn cone_constraint_degenerate_inputs_fall_back_to_reference() {
    let cone = BallSocketConstraint::new(30_000_000);
    let refd = cone.apply(v(0, 0, 0), v(1_000_000, 0, 0));
    assert_eq!(refd, v(1_000_000, 0, 0));
    // Anti-parallel directions have no rotation axis: the reference
    // wins.
    let anti = cone.apply(v(-1_000_000, 0, 0), v(1_000_000, 0, 0));
    assert_eq!(anti, v(1_000_000, 0, 0));
}

#[test]
fn constraint_construction_from_radians() {
    let c = BallSocketConstraint::from_radians(1_570_796);
    // Cosine of a quarter turn is nearly zero, sine nearly one.
    assert!(c.cos_max.abs() < 2_000);
    assert!((c.sin_max - 1_000_000).abs() < 2_000);
    let d = BallSocketConstraint::new(90_000_000);
    assert_eq!(d.max_angle, 1_570_796);
}
