//! Obstacles, worlds and the collision response, in micro-units.

use fabrik::AabbObstacle;
use fabrik::ChainBuilder;
use fabrik::CollisionConfig;
use fabrik::CollisionResponse;
use fabrik::FabrikSolver;
use fabrik::Obstacle;
use fabrik::ObstacleShape;
use fabrik::ObstacleWorld;
use fabrik::SphereObstacle;
use fabrik::Vec3;

fn v(x: i64, y: i64, z: i64) -> Vec3 {
    Vec3::new(x, y, z)
}

#[test]
fn sphere_signed_distance_is_exact() {
    // A point five units from the centre of a two-unit sphere is
    // exactly three units outside it.
    let s = SphereObstacle::new(v(0, 0, 0), 2_000_000);
    assert_eq!(s.signed_distance(v(5_000_000, 0, 0)), 3_000_000);
    assert_eq!(s.signed_distance(v(0, 2_000_000, 0)), 0);
    assert_eq!(s.signed_distance(v(1_000_000, 0, 0)), -1_000_000);
    assert!(s.contains_point(v(1_000_000, 0, 0)));
    assert!(!s.contains_point(v(2_000_001, 0, 0)));
}

#[test]
fn sphere_push_out_clears_margin() {
    let s = SphereObstacle::new(v(0, 0, 0), 1_000_000);
    let pushed = s.push_out(v(500_000, 0, 0), 100_000);
    assert!(s.signed_distance(pushed) >= 100_000);
    // Pushing from the exact centre falls back to straight up.
    let from_center = s.push_out(v(0, 0, 0), 100_000);
    assert_eq!(from_center, v(0, 1_100_000, 0));
}

#[test]
fn box_signed_distance_is_exact() {
    let b = AabbObstacle::new(v(-1_000_000, -1_000_000, -1_000_000), v(1_000_000, 1_000_000, 1_000_000));
    assert_eq!(b.signed_distance(v(2_000_000, 0, 0)), 1_000_000);
    assert_eq!(b.signed_distance(v(500_000, 0, 0)), -500_000);
    assert_eq!(b.signed_distance(v(1_000_000, 0, 0)), 0);
    // Outside along two axes: the diagonal 3-4 excess gives exactly 5.
    assert_eq!(b.signed_distance(v(4_000_000, 5_000_000, 0)), 5_000_000);
    assert!(b.contains_point(v(1_000_000, -1_000_000, 0)));
    assert!(!b.contains_point(v(1_000_001, 0, 0)));
}

#[test]
fn box_push_out_lands_exactly_on_margin() {
    let b = AabbObstacle::new(v(-1_000_000, -1_000_000, -1_000_000), v(1_000_000, 1_000_000, 1_000_000));
    let pushed = b.push_out(v(900_000, 0, 0), 50_000);
    assert_eq!(b.signed_distance(pushed), 50_000);
    assert_eq!(pushed, v(1_050_000, 0, 0));
}

#[test]
fn obstacle_world_queries() {
    let mut world = ObstacleWorld::new();
    assert!(world.is_empty());
    world.add_sphere(v(0, 0, 0), 1_000_000);
    world.add_box(v(5_000_000, 0, 0), v(1_000_000, 1_000_000, 1_000_000));
    assert_eq!(world.obstacle_count(), 2);
    assert!(world.point_inside_any(v(500_000, 0, 0)));
    assert!(world.point_inside_any(v(5_500_000, 0, 0)));
    assert!(!world.point_inside_any(v(2_500_000, 0, 0)));
    let (idx, d) = world.closest_obstacle(v(1_500_000, 0, 0)).unwrap();
    assert_eq!(idx, 0);
    assert_eq!(d, 500_000);
    world.clear();
    assert!(world.is_empty());
    assert_eq!(world.closest_obstacle(v(0, 0, 0)), None);
}

#[test]
fn add_aabb_stores_the_corners() {
    let mut world = ObstacleWorld::new();
    world.add_aabb(v(-1_000_000, 0, 0), v(1_000_000, 2_000_000, 3_000_000));
    assert_eq!(world.obstacle_count(), 1);
    match world.obstacles()[0] {
        Obstacle::Aabb(b) => {
            assert_eq!(b.min, v(-1_000_000, 0, 0));
            assert_eq!(b.max, v(1_000_000, 2_000_000, 3_000_000));
        },
        _ => panic!("expected a box"),
    }
}

#[test]
fn closest_obstacle_keeps_first_of_ties() {
    let mut world = ObstacleWorld::new();
    world.add_sphere(v(-2_000_000, 0, 0), 1_000_000);
    world.add_sphere(v(2_000_000, 0, 0), 1_000_000);
    let (idx, d) = world.closest_obstacle(v(0, 0, 0)).unwrap();
    assert_eq!(idx, 0);
    assert_eq!(d, 1_000_000);
}

#[test]
fn push_out_point_clears_every_obstacle() {
    let mut world = ObstacleWorld::new();
    world.add_sphere(v(0, 0, 0), 1_000_000);
    let pushed = world.push_out_point(v(200_000, 0, 0), 100_000);
    let obstacles = world.obstacles();
    for o in obstacles.iter() {
        match o {
            Obstacle::Sphere(s) => assert!(s.signed_distance(pushed) >= 100_000),
            Obstacle::Aabb(b) => assert!(b.signed_distance(pushed) >= 100_000),
        }
    }
    // A point already clear of everything is returned unchanged.
    let clear = v(5_000_000, 0, 0);
    assert_eq!(world.push_out_point(clear, 100_000), clear);
}

#[test]
fn six_joint_chain_avoids_sphere() {
    // The six-joint chain of the solve scenario, an obstacle sphere at
    // (1.5, 2.0, 0) with radius 0.5 and a margin of 0.1: after the
    // collision-aware solve every joint keeps essentially the full
    // 0.6-unit clearance from the sphere's centre.  The closing
    // bone-length restore walk may trade a few milli-units of the
    // margin back, so the clearance is checked against 0.59 units;
    // the push-out itself guarantees the exact 0.6 (see the resolve
    // test below).
    let mut b = ChainBuilder::new().tolerance(1_000).max_iterations(20);
    for i in 0..6i64 {
        b = b.add_joint(v(800_000 * i, 0, 0));
    }
    let mut chain = b.build();
    let mut world = ObstacleWorld::new();
    world.add_sphere(v(1_500_000, 2_000_000, 0), 500_000);
    let config = CollisionConfig::new(100_000);
    let target = v(2_000_000, 2_000_000, 0);
    let _ = FabrikSolver::solve_with_collision(&mut chain, target, &world, &config);
    for p in chain.positions() {
        let dx = (p.x - 1_500_000) as i128;
        let dy = (p.y - 2_000_000) as i128;
        let dz = p.z as i128;
        let d2 = dx * dx + dy * dy + dz * dz;
        assert!(d2 >= 590_000i128 * 590_000i128, "joint at {:?} is too close", p);
    }
}

#[test]
fn resolve_chain_pushes_joints_clear() {
    // With bone preservation off, one resolution leaves every joint of
    // a single-obstacle world clear of it by the margin.
    let mut chain = ChainBuilder::new()
        .add_joint(v(-2_000_000, 0, 0))
        .add_joint(v(-500_000, 0, 0))
        .add_joint(v(500_000, 0, 0))
        .add_joint(v(2_000_000, 0, 0))
        .build();
    let mut world = ObstacleWorld::new();
    world.add_sphere(v(0, 0, 0), 1_000_000);
    let config = CollisionConfig::new(100_000).with_preserve_bone_lengths(false);
    CollisionResponse::resolve_chain(&mut chain, &world, &config);
    let positions = chain.positions();
    // The base is never pushed.
    assert_eq!(positions[0], v(-2_000_000, 0, 0));
    for p in positions.iter().skip(1) {
        let s = SphereObstacle::new(v(0, 0, 0), 1_000_000);
        assert!(s.signed_distance(*p) >= 100_000, "joint at {:?} still collides", p);
    }
}

#[test]
fn resolve_chain_keeps_structure() {
    let mut chain = ChainBuilder::new()
        .add_joint(v(0, 0, 0))
        .add_joint(v(1_000_000, 0, 0))
        .add_joint(v(2_000_000, 0, 0))
        .build();
    let bones_before = chain.bone_lengths().clone();
    let mut world = ObstacleWorld::new();
    world.add_sphere(v(1_000_000, 0, 0), 300_000);
    let config = CollisionConfig::default();
    CollisionResponse::resolve_chain(&mut chain, &world, &config);
    assert_eq!(chain.joint_count(), 3);
    assert_eq!(chain.bone_lengths(), &bones_before);
    assert_eq!(chain.positions()[0], v(0, 0, 0));
}

#[test]
fn has_collision_and_colliding_joints() {
    let chain = ChainBuilder::new()
        .add_joint(v(0, 0, 0))
        .add_joint(v(1_000_000, 0, 0))
        .add_joint(v(2_000_000, 0, 0))
        .build();
    let mut world = ObstacleWorld::new();
    world.add_sphere(v(1_000_000, 0, 0), 200_000);
    assert!(CollisionResponse::has_collision(&chain, &world));
    assert_eq!(CollisionResponse::colliding_joints(&chain, &world), vec![1]);
    let empty = ObstacleWorld::new();
    assert!(!CollisionResponse::has_collision(&chain, &empty));
    assert!(CollisionResponse::colliding_joints(&chain, &empty).is_empty());
}

#[test]
fn collision_hits_report_moved_joints() {
    let chain = ChainBuilder::new()
        .add_joint(v(-2_000_000, 0, 0))
        .add_joint(v(0, 0, 0))
        .build();
    let mut world = ObstacleWorld::new();
    world.add_sphere(v(0, 0, 0), 1_000_000);
    let hits = CollisionResponse::get_collision_hits(&chain, &world, 100_000);
    assert_eq!(hits.len(), 1);
    assert_eq!(hits[0].original, v(0, 0, 0));
    // The joint sat on the centre, so the push falls back to straight
    // up, at radius plus margin.
    assert_eq!(hits[0].pushed, v(0, 1_100_000, 0));
    let clear_world = ObstacleWorld::new();
    assert!(CollisionResponse::get_collision_hits(&chain, &clear_world, 100_000).is_empty());
}

#[test]
fn default_config_matches_documented_values() {
    let config = CollisionConfig::default();
    assert_eq!(config.margin, 50_000);
    assert_eq!(config.max_iterations, 4);
    assert!(config.preserve_bone_lengths);
    let tuned = CollisionConfig::new(20_000).with_iterations(7).with_preserve_bone_lengths(false);
    assert_eq!(tuned.margin, 20_000);
    assert_eq!(tuned.max_iterations, 7);
    assert!(!tuned.preserve_bone_lengths);
}

#[test]
fn render_shapes_describe_obstacles() {
    let s = SphereObstacle::new(v(1_000_000, 0, 0), 250_000);
    assert_eq!(
        s.render_shape(),
        ObstacleShape::Sphere { center: v(1_000_000, 0, 0), radius: 250_000 }
    );
    let b = AabbObstacle::new(v(0, 0, 0), v(2_000_000, 4_000_000, 6_000_000));
    match b.render_shape() {
        ObstacleShape::Aabb { center, half_extents } => {
            assert_eq!(center, v(1_000_000, 2_000_000, 3_000_000));
            assert_eq!(half_extents, v(1_000_000, 2_000_000, 3_000_000));
        },
        _ => panic!("expected a box descriptor"),
    }
}
