//! Solver behaviour on concrete chains, in micro-units.

use fabrik::Chain;
use fabrik::ChainBuilder;
use fabrik::FabrikSolver;
use fabrik::Vec3;

fn v(x: i64, y: i64, z: i64) -> Vec3 {
    Vec3::new(x, y, z)
}

fn uniform_chain(joints: usize, spacing: i64, tolerance: i64, max_iterations: u32) -> Chain {
    let mut b = ChainBuilder::new().tolerance(tolerance).max_iterations(max_iterations);
    for i in 0..joints {
        b = b.add_joint(v(spacing * i as i64, 0, 0));
    }
    b.build()
}

fn dist_units(a: Vec3, b: Vec3) -> f64 {
    let dx = (a.x - b.x) as f64;
    let dy = (a.y - b.y) as f64;
    let dz = (a.z - b.z) as f64;
    (dx * dx + dy * dy + dz * dz).sqrt()
}

#[test]
fn six_joint_chain_reaches_target() {
    // Six joints spaced 0.8 units apart, target (2, 2, 0), tolerance a
    // milli-unit, twenty iterations: the solver converges and every
    // bone keeps its 0.8-unit length to within a milli-unit.
    let mut chain = uniform_chain(6, 800_000, 1_000, 20);
    let target = v(2_000_000, 2_000_000, 0);
    let result = FabrikSolver::solve(&mut chain, target);
    assert!(result.converged);
    let end = chain.end_effector().unwrap();
    assert!(dist_units(end, target) <= 1_000.0);
    assert_eq!(result.final_distance <= 1_000, true);
    let positions = chain.positions();
    for i in 1..positions.len() {
        let bone = dist_units(positions[i - 1], positions[i]);
        assert!((bone - 800_000.0).abs() <= 1_000.0, "bone {} came out {}", i, bone);
    }
}

#[test]
fn reachable_target_meets_loose_tolerance() {
    // A target within total chain length, a loose tolerance of one
    // unit and a generous iteration budget: the reported residual is
    // within tolerance.
    let mut chain = uniform_chain(5, 1_000_000, 1_000_000, 50);
    let target = v(1_500_000, 2_500_000, 500_000);
    let result = FabrikSolver::solve(&mut chain, target);
    assert!(result.converged);
    assert!(result.final_distance <= 1_000_000);
}

#[test]
fn unreachable_target_stretches_straight() {
    // Total length 4 units, target 10 units out along the x axis: one
    // iteration, no convergence, the shortfall reported exactly, and
    // every joint exactly at its cumulative offset on the ray.
    let mut chain = uniform_chain(6, 800_000, 1_000, 20);
    let target = v(10_000_000, 0, 0);
    let result = FabrikSolver::solve(&mut chain, target);
    assert!(!result.converged);
    assert_eq!(result.iterations, 1);
    assert_eq!(result.final_distance, 10_000_000 - 4_000_000);
    let positions = chain.positions();
    for (i, p) in positions.iter().enumerate() {
        assert_eq!(*p, v(800_000 * i as i64, 0, 0));
    }
}

#[test]
fn degenerate_unreachable_stretch_falls_back_vertically() {
    // A 30-micro-unit bone and a target 60 micro-units out: the target
    // is beyond reach, but the base-to-target direction is below the
    // degeneracy threshold, so the placement's vertical fallback puts
    // the second joint straight above the base at its bone length.
    let mut chain = ChainBuilder::new()
        .add_joint(v(0, 0, 0))
        .add_joint(v(30, 0, 0))
        .build();
    let result = FabrikSolver::solve(&mut chain, v(60, 0, 0));
    assert!(!result.converged);
    assert_eq!(result.iterations, 1);
    assert_eq!(result.final_distance, 60 - 30);
    let positions = chain.positions();
    assert_eq!(positions[0], v(0, 0, 0));
    assert_eq!(positions[1], v(0, 30, 0));
}

#[test]
fn empty_chain_is_trivially_converged() {
    let mut chain = ChainBuilder::new().build();
    let result = FabrikSolver::solve(&mut chain, v(1_000_000, 0, 0));
    assert!(result.converged);
    assert_eq!(result.iterations, 0);
    assert_eq!(result.final_distance, 0);
}

#[test]
fn single_joint_chain_is_trivially_converged() {
    let mut chain = ChainBuilder::new().add_joint(v(0, 0, 0)).build();
    let result = FabrikSolver::solve(&mut chain, v(1_000_000, 0, 0));
    assert!(result.converged);
    assert_eq!(result.iterations, 0);
    assert_eq!(chain.joint_count(), 1);
    assert_eq!(chain.base().unwrap(), v(0, 0, 0));
}

#[test]
fn solve_anchored_pins_base() {
    let mut chain = uniform_chain(4, 1_000_000, 1_000, 20);
    let base = v(100_000, 200_000, 0);
    let target = v(1_000_000, 1_000_000, 0);
    let _ = FabrikSolver::solve_anchored(&mut chain, target, base);
    assert_eq!(chain.base().unwrap(), base);
}

#[test]
fn solver_never_shortens_bones() {
    // The away-from-zero rounding in the placement step means a solved
    // bone is never shorter than its frozen length.
    let mut chain = uniform_chain(5, 700_000, 1_000, 12);
    let target = v(1_200_000, 900_000, -400_000);
    let _ = FabrikSolver::solve(&mut chain, target);
    let positions = chain.positions();
    let bones = chain.bone_lengths().clone();
    for i in 1..positions.len() {
        let dx = (positions[i].x - positions[i - 1].x) as i128;
        let dy = (positions[i].y - positions[i - 1].y) as i128;
        let dz = (positions[i].z - positions[i - 1].z) as i128;
        let d2 = dx * dx + dy * dy + dz * dz;
        let b = bones[i - 1] as i128;
        assert!(d2 >= b * b, "bone {} shrank", i);
    }
}

#[test]
fn builder_measures_exact_bone_lengths() {
    // A 3-4-5 triangle: the measured bone length is exactly five units.
    let chain = ChainBuilder::new()
        .add_joint(v(0, 0, 0))
        .add_joint(v(3_000_000, 4_000_000, 0))
        .build();
    assert_eq!(chain.bone_lengths()[0], 5_000_000);
    assert_eq!(chain.total_length(), 5_000_000);
}

#[test]
fn builder_defaults() {
    let b = Chain::builder();
    assert_eq!(b.tolerance, 1_000);
    assert_eq!(b.max_iterations, 10);
    let chain = b.add_joint(v(0, 0, 0)).add_joint(v(1_000_000, 0, 0)).build();
    assert_eq!(chain.tolerance(), 1_000);
    assert_eq!(chain.max_iterations(), 10);
    assert_eq!(chain.joint_count(), 2);
}

#[test]
fn repeated_solves_track_a_moving_target() {
    // The chain can be re-solved frame after frame.
    let mut chain = uniform_chain(6, 800_000, 1_000, 20);
    for step in 0..10i64 {
        let target = v(1_000_000 + 100_000 * step, 1_500_000, 0);
        let result = FabrikSolver::solve(&mut chain, target);
        assert!(result.converged);
    }
}
