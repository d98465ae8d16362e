//! Ray construction and ray/obstacle intersection, in micro-units.

use fabrik::AabbObstacle;
use fabrik::ObstacleWorld;
use fabrik::Ray;
use fabrik::SphereObstacle;
use fabrik::Vec3;

fn v(x: i64, y: i64, z: i64) -> Vec3 {
    Vec3::new(x, y, z)
}

#[test]
fn ray_at_walks_the_direction() {
    let ray = Ray::new(v(0, 0, 0), v(0, 0, 1_000_000));
    assert_eq!(ray.direction, v(0, 0, 1_000_000));
    assert_eq!(ray.at(2_500_000), v(0, 0, 2_500_000));
}

#[test]
fn sphere_ray_hits_exactly() {
    // A two-unit sphere ten units down the z axis, a ray straight at
    // it: the near hit is exactly eight units out, with the normal
    // pointing back at the origin.
    let s = SphereObstacle::new(v(0, 0, 10_000_000), 2_000_000);
    let ray = Ray::new(v(0, 0, 0), v(0, 0, 1_000_000));
    let hit = s.ray_intersect(&ray).unwrap();
    assert_eq!(hit.t, 8_000_000);
    assert_eq!(hit.point, v(0, 0, 8_000_000));
    assert_eq!(hit.normal, v(0, 0, -1_000_000));
}

#[test]
fn sphere_ray_misses_cleanly() {
    let s = SphereObstacle::new(v(0, 10_000_000, 0), 1_000_000);
    let ray = Ray::new(v(0, 0, 0), v(1_000_000, 0, 0));
    assert!(s.ray_intersect(&ray).is_none());
}

#[test]
fn box_ray_hits_the_near_face() {
    // A unit box centred five units down the z axis: the slab entry is
    // exactly four units out, on the minus-z face.
    let b = AabbObstacle::new(v(-1_000_000, -1_000_000, 4_000_000), v(1_000_000, 1_000_000, 6_000_000));
    let ray = Ray::new(v(0, 0, 0), v(0, 0, 1_000_000));
    let hit = b.ray_intersect(&ray).unwrap();
    assert_eq!(hit.t, 4_000_000);
    assert_eq!(hit.point, v(0, 0, 4_000_000));
    assert_eq!(hit.normal, v(0, 0, -1_000_000));
}

#[test]
fn box_ray_parallel_outside_misses() {
    let b = AabbObstacle::new(v(-1_000_000, -1_000_000, 4_000_000), v(1_000_000, 1_000_000, 6_000_000));
    let ray = Ray::new(v(0, 3_000_000, 0), v(0, 0, 1_000_000));
    assert!(b.ray_intersect(&ray).is_none());
}

#[test]
fn between_points_ranges_to_the_far_point() {
    let ray = Ray::between_points(v(0, 0, 0), v(3_000_000, 4_000_000, 0));
    assert_eq!(ray.t_max, 5_000_000);
    assert_eq!(ray.origin, v(0, 0, 0));
    let degenerate = Ray::between_points(v(0, 0, 0), v(10, 0, 0));
    assert_eq!(degenerate.t_min, 0);
    assert_eq!(degenerate.t_max, 0);
}

#[test]
fn ray_with_range_cuts_off_hits() {
    let s = SphereObstacle::new(v(0, 0, 10_000_000), 2_000_000);
    // The hit sits at eight units; a range ending at seven misses it.
    let short = Ray::with_range(v(0, 0, 0), v(0, 0, 1_000_000), 100, 7_000_000);
    assert!(s.ray_intersect(&short).is_none());
    let long = Ray::with_range(v(0, 0, 0), v(0, 0, 1_000_000), 100, 9_000_000);
    assert_eq!(s.ray_intersect(&long).unwrap().t, 8_000_000);
}

#[test]
fn box_ray_from_inside_exits_at_the_far_face() {
    let b = AabbObstacle::new(v(-1_000_000, -1_000_000, -1_000_000), v(1_000_000, 1_000_000, 1_000_000));
    let ray = Ray::new(v(0, 0, 0), v(0, 0, 1_000_000));
    // The entry parameter is behind the origin, so the exit face wins.
    let hit = b.ray_intersect(&ray).unwrap();
    assert_eq!(hit.t, 1_000_000);
    assert_eq!(hit.point, v(0, 0, 1_000_000));
}

#[test]
fn world_raycast_picks_the_nearest_hit() {
    let mut world = ObstacleWorld::new();
    world.add_sphere(v(0, 0, 10_000_000), 1_000_000);
    world.add_sphere(v(0, 0, 5_000_000), 1_000_000);
    let ray = Ray::new(v(0, 0, 0), v(0, 0, 1_000_000));
    let (idx, hit) = world.raycast(&ray).unwrap();
    assert_eq!(idx, 1);
    assert_eq!(hit.t, 4_000_000);
    let miss = Ray::new(v(0, 0, 0), v(0, -1_000_000, 0));
    assert!(world.raycast(&miss).is_none());
}
