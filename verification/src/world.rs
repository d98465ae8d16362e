//! An unordered collection of obstacles with aggregate queries.
//!
//! `push_out_point` resolves a point against every obstacle at once by
//! sweeping the collection for up to four passes; a pass that pushes
//! nothing ends the sweep, and the fixed-point lemma below shows that a
//! point such a pass leaves alone clears every obstacle by the margin.

use vstd::prelude::*;
use crate::vec3::Vec3;
use crate::vec3::V3;
use crate::obstacle::Obstacle;
use crate::obstacle::SphereObstacle;
use crate::obstacle::AabbObstacle;
use crate::obstacle::spec_obstacle_sd;
use crate::obstacle::spec_obstacle_contains;
use crate::obstacle::spec_obstacle_push;
use crate::obstacle::lemma_obstacle_push_clears;
use crate::fixed::MAX_ANCHOR;
use crate::fixed::MAX_POS;
use crate::fixed::MAX_RADIUS;
use crate::fixed::MAX_MARGIN;

verus! {

/// One sweep over the first `k` obstacles: each obstacle nearer than
/// `margin` replaces the point with its push-out; the flag records
/// whether any did.
pub open spec fn spec_push_pass(obs: Seq<Obstacle>, p: V3, margin: int, k: int) -> (V3, bool)
    decreases k,
{
    if k <= 0 {
        (p, false)
    } else {
        let prev = spec_push_pass(obs, p, margin, k - 1);
        if spec_obstacle_sd(obs[k - 1], prev.0) < margin {
            (spec_obstacle_push(obs[k - 1], prev.0, margin), true)
        } else {
            prev
        }
    }
}

/// Up to `passes` sweeps, stopping after the first sweep that pushes
/// nothing.
pub open spec fn spec_push_point(obs: Seq<Obstacle>, p: V3, margin: int, passes: int) -> V3
    decreases passes,
{
    if passes <= 0 {
        p
    } else {
        let swept = spec_push_pass(obs, p, margin, obs.len() as int);
        if swept.1 {
            spec_push_point(obs, swept.0, margin, passes - 1)
        } else {
            p
        }
    }
}

/// Whether some obstacle contains the point.
pub open spec fn spec_inside_any(obs: Seq<Obstacle>, p: V3) -> bool {
    exists|i: int| 0 <= i < obs.len() && spec_obstacle_contains(#[trigger] obs[i], p)
}

/// Every obstacle keeps the point at least `margin` away.
pub open spec fn spec_all_clear(obs: Seq<Obstacle>, p: V3, margin: int) -> bool {
    forall|i: int| 0 <= i < obs.len() ==> spec_obstacle_sd(#[trigger] obs[i], p) >= margin
}

/// A sweep that pushes nothing leaves the point unchanged, and only
/// happens when the point already clears every obstacle it covers by
/// the margin.
pub proof fn lemma_pass_fixpoint(obs: Seq<Obstacle>, p: V3, margin: int, k: int)
    requires
        0 <= k <= obs.len(),
        !spec_push_pass(obs, p, margin, k).1,
    ensures
        spec_push_pass(obs, p, margin, k).0 == p,
        forall|i: int| 0 <= i < k ==> spec_obstacle_sd(#[trigger] obs[i], p) >= margin,
    decreases k,
{
    if k > 0 {
        let prev = spec_push_pass(obs, p, margin, k - 1);
        assert(!prev.1);
        lemma_pass_fixpoint(obs, p, margin, k - 1);
    }
}

/// Obstacle non-penetration at a fixed point: when a full sweep over a
/// world pushes nothing, the point clears every obstacle by the margin.
pub proof fn lemma_push_point_settled(obs: Seq<Obstacle>, p: V3, margin: int)
    requires
        !spec_push_pass(obs, p, margin, obs.len() as int).1,
    ensures
        spec_all_clear(obs, p, margin),
{
    lemma_pass_fixpoint(obs, p, margin, obs.len() as int);
}

/// A world with a single obstacle is fully resolved by one call of
/// `push_out_point`: afterwards the obstacle clears the point by the
/// margin.
pub proof fn lemma_push_point_single(obs: Seq<Obstacle>, p: V3, margin: int)
    requires
        obs.len() == 1,
        obs[0].wf(),
        p.bounded(MAX_POS as int),
        0 <= margin <= MAX_MARGIN,
    ensures
        spec_all_clear(obs, spec_push_point(obs, p, margin, 4), margin),
{
    assert(spec_push_pass(obs, p, margin, 0) == (p, false));
    let first = spec_push_pass(obs, p, margin, 1);
    if !first.1 {
        lemma_push_point_settled(obs, p, margin);
        assert(spec_push_point(obs, p, margin, 4) == p);
    } else {
        assert(spec_obstacle_sd(obs[0], p) < margin);
        let q = spec_obstacle_push(obs[0], p, margin);
        assert(first == (q, true));
        lemma_obstacle_push_clears(obs[0], p, margin);
        assert(spec_obstacle_sd(obs[0], q) >= margin);
        assert(spec_push_pass(obs, q, margin, 0) == (q, false));
        let second = spec_push_pass(obs, q, margin, 1);
        assert(second == (q, false));
        lemma_pass_fixpoint(obs, q, margin, 1);
        assert(spec_push_point(obs, q, margin, 3) == q);
        assert(spec_push_point(obs, p, margin, 4) == q);
    }
}

/// A point that clears everything is a fixed point of `push_out_point`.
pub proof fn lemma_push_point_clear_identity(obs: Seq<Obstacle>, p: V3, margin: int)
    requires
        spec_all_clear(obs, p, margin),
    ensures
        spec_push_point(obs, p, margin, 4) == p,
{
    lemma_pass_unpushed(obs, p, margin, obs.len() as int);
}

/// Index of the obstacle nearest the point among the first `k`
/// (ties keep the earlier index), mirroring the scan order.
pub open spec fn spec_closest_idx(obs: Seq<Obstacle>, p: V3, k: int) -> int
    decreases k,
{
    if k <= 1 {
        0
    } else {
        let prev = spec_closest_idx(obs, p, k - 1);
        if spec_obstacle_sd(obs[k - 1], p) < spec_obstacle_sd(obs[prev], p) {
            k - 1
        } else {
            prev
        }
    }
}

/// An insertion-ordered collection of obstacles.
#[derive(Clone, Debug)]
pub struct ObstacleWorld {
    /// The obstacles, in insertion order.
    pub obstacles: Vec<Obstacle>,
}

impl ObstacleWorld {
    /// Every stored obstacle is well-formed.
    pub open spec fn wf(self) -> bool {
        forall|i: int| 0 <= i < self.obstacles@.len() ==> (#[trigger] self.obstacles@[i]).wf()
    }

    /// An empty world.
    pub fn new() -> (r: ObstacleWorld)
        ensures
            r.obstacles@.len() == 0,
            r.wf(),
    {
        ObstacleWorld { obstacles: Vec::new() }
    }

    /// Add an obstacle.
    pub fn add(&mut self, obstacle: Obstacle)
        requires
            obstacle.wf(),
        ensures
            final(self).obstacles@ == old(self).obstacles@.push(obstacle),
            old(self).wf() ==> final(self).wf(),
    {
        self.obstacles.push(obstacle);
    }

    /// Add a sphere by centre and radius.
    pub fn add_sphere(&mut self, center: Vec3, radius: i64)
        requires
            center@.bounded(MAX_ANCHOR as int),
            0 <= radius <= MAX_RADIUS,
        ensures
            final(self).obstacles@ == old(self).obstacles@.push(
                Obstacle::Sphere(SphereObstacle { center, radius })),
            old(self).wf() ==> final(self).wf(),
    {
        let s = SphereObstacle::new(center, radius);
        self.obstacles.push(Obstacle::Sphere(s));
    }

    /// Add a box by centre and half-extents.
    pub fn add_box(&mut self, center: Vec3, half_extents: Vec3)
        requires
            center@.bounded(MAX_ANCHOR as int),
            half_extents@.bounded(MAX_RADIUS as int),
            100 <= half_extents@.x,
            100 <= half_extents@.y,
            100 <= half_extents@.z,
        ensures
            final(self).obstacles@.len() == old(self).obstacles@.len() + 1,
            final(self).obstacles@.last() matches Obstacle::Aabb(b)
                && b.min@.x == center@.x - half_extents@.x
                && b.min@.y == center@.y - half_extents@.y
                && b.min@.z == center@.z - half_extents@.z
                && b.max@.x == center@.x + half_extents@.x
                && b.max@.y == center@.y + half_extents@.y
                && b.max@.z == center@.z + half_extents@.z,
            forall|i: int| 0 <= i < old(self).obstacles@.len()
                ==> final(self).obstacles@[i] == #[trigger] old(self).obstacles@[i],
            old(self).wf() ==> final(self).wf(),
    {
        let b = AabbObstacle::from_center_half_extents(center, half_extents);
        self.obstacles.push(Obstacle::Aabb(b));
    }

    /// Add a box by its two corners.
    pub fn add_aabb(&mut self, min: Vec3, max: Vec3)
        requires
            min@.bounded(crate::obstacle::MAX_CORNER as int),
            max@.bounded(crate::obstacle::MAX_CORNER as int),
            min@.x + crate::obstacle::MIN_THICKNESS <= max@.x,
            min@.y + crate::obstacle::MIN_THICKNESS <= max@.y,
            min@.z + crate::obstacle::MIN_THICKNESS <= max@.z,
        ensures
            final(self).obstacles@ == old(self).obstacles@.push(
                Obstacle::Aabb(AabbObstacle { min, max })),
            old(self).wf() ==> final(self).wf(),
    {
        let b = AabbObstacle::new(min, max);
        self.obstacles.push(Obstacle::Aabb(b));
    }

    /// Remove every obstacle.
    pub fn clear(&mut self)
        ensures
            final(self).obstacles@.len() == 0,
            final(self).wf(),
    {
        self.obstacles.clear();
    }

    /// The obstacles in insertion order.
    pub fn obstacles(&self) -> (r: &Vec<Obstacle>)
        ensures
            r@ == self.obstacles@,
    {
        &self.obstacles
    }

    /// How many obstacles the world holds.
    pub fn obstacle_count(&self) -> (r: usize)
        ensures
            r == self.obstacles@.len(),
    {
        self.obstacles.len()
    }

    /// Whether the world holds no obstacle.
    pub fn is_empty(&self) -> (r: bool)
        ensures
            r == (self.obstacles@.len() == 0),
    {
        self.obstacles.len() == 0
    }

    /// Decide well-formedness at run time.
    pub fn is_well_formed(&self) -> (b: bool)
        ensures
            b == self.wf(),
    {
        let mut i: usize = 0;
        while i < self.obstacles.len()
            invariant
                0 <= i <= self.obstacles@.len(),
                forall|j: int| 0 <= j < i ==> (#[trigger] self.obstacles@[j]).wf(),
            decreases self.obstacles@.len() - i,
        {
            if !self.obstacles[i].is_well_formed() {
                return false;
            }
            i = i + 1;
        }
        true
    }

    /// Whether any obstacle contains the point.
    pub fn point_inside_any(&self, point: Vec3) -> (r: bool)
        requires
            self.wf(),
            point@.bounded(MAX_POS as int),
        ensures
            r == spec_inside_any(self.obstacles@, point@),
    {
        let mut i: usize = 0;
        while i < self.obstacles.len()
            invariant
                0 <= i <= self.obstacles@.len(),
                self.wf(),
                point@.bounded(MAX_POS as int),
                forall|j: int| 0 <= j < i ==> !spec_obstacle_contains(
                    #[trigger] self.obstacles@[j], point@),
            decreases self.obstacles@.len() - i,
        {
            if self.obstacles[i].contains_point(point) {
                return true;
            }
            i = i + 1;
        }
        false
    }

    /// The obstacle whose surface is nearest the point, with its signed
    /// distance; among ties the one added first.  `None` only for an
    /// empty world.
    pub fn closest_obstacle(&self, point: Vec3) -> (r: Option<(usize, i64)>)
        requires
            self.wf(),
            point@.bounded(MAX_POS as int),
        ensures
            r is None <==> self.obstacles@.len() == 0,
            r matches Some((idx, d)) ==> {
                &&& 0 <= idx < self.obstacles@.len()
                &&& idx as int == spec_closest_idx(
                    self.obstacles@, point@, self.obstacles@.len() as int)
                &&& d == spec_obstacle_sd(self.obstacles@[idx as int], point@)
                &&& forall|j: int| 0 <= j < self.obstacles@.len() ==> spec_obstacle_sd(
                        #[trigger] self.obstacles@[j], point@) >= d
                &&& forall|j: int| 0 <= j < idx ==> spec_obstacle_sd(
                        #[trigger] self.obstacles@[j], point@) > d
            },
    {
        if self.obstacles.len() == 0 {
            return None;
        }
        let mut best_idx: usize = 0;
        let mut best_d: i64 = self.obstacles[0].signed_distance(point);
        let mut i: usize = 1;
        while i < self.obstacles.len()
            invariant
                1 <= i <= self.obstacles@.len(),
                self.wf(),
                point@.bounded(MAX_POS as int),
                0 <= best_idx < i,
                best_idx as int == spec_closest_idx(self.obstacles@, point@, i as int),
                best_d == spec_obstacle_sd(self.obstacles@[best_idx as int], point@),
                forall|j: int| 0 <= j < i ==> spec_obstacle_sd(
                    #[trigger] self.obstacles@[j], point@) >= best_d,
                forall|j: int| 0 <= j < best_idx ==> spec_obstacle_sd(
                    #[trigger] self.obstacles@[j], point@) > best_d,
            decreases self.obstacles@.len() - i,
        {
            let d = self.obstacles[i].signed_distance(point);
            if d < best_d {
                best_idx = i;
                best_d = d;
            }
            i = i + 1;
        }
        Some((best_idx, best_d))
    }

    /// Push a point out of every obstacle: up to four sweeps, each
    /// pushing the point out of every obstacle within the margin, until
    /// a sweep changes nothing.
    #[verifier::rlimit(80)]
    pub fn push_out_point(&self, point: Vec3, margin: i64) -> (r: Vec3)
        requires
            self.wf(),
            point@.bounded(MAX_POS as int),
            0 <= margin <= MAX_MARGIN,
        ensures
            r@ == spec_push_point(self.obstacles@, point@, margin as int, 4),
            r@.bounded(MAX_POS as int),
            spec_all_clear(self.obstacles@, point@, margin as int) ==> r == point,
    {
        let ghost obs = self.obstacles@;
        let ghost m = margin as int;
        let mut result = point;
        let mut pass: usize = 0;
        proof {
            if spec_all_clear(obs, point@, m) {
                lemma_pass_unpushed(obs, point@, m, obs.len() as int);
            }
        }
        while pass < 4
            invariant
                0 <= pass <= 4,
                self.wf(),
                obs == self.obstacles@,
                0 <= margin <= MAX_MARGIN,
                m == margin as int,
                result@.bounded(MAX_POS as int),
                spec_push_point(obs, point@, m, 4) == spec_push_point(
                    obs, result@, m, 4 - pass),
                spec_all_clear(obs, point@, m) ==> spec_push_pass(
                    obs, point@, m, obs.len() as int) == (point@, false),
                spec_all_clear(obs, point@, m) ==> (pass == 0 && result == point),
            decreases 4 - pass,
        {
            let entry = result;
            let mut pushed = false;
            let mut i: usize = 0;
            while i < self.obstacles.len()
                invariant
                    0 <= i <= self.obstacles@.len(),
                    self.wf(),
                    obs == self.obstacles@,
                    0 <= margin <= MAX_MARGIN,
                    m == margin as int,
                    entry@.bounded(MAX_POS as int),
                    result@.bounded(MAX_POS as int),
                    (result@, pushed) == spec_push_pass(obs, entry@, m, i as int),
                decreases self.obstacles@.len() - i,
            {
                if self.obstacles[i].signed_distance(result) < margin {
                    result = self.obstacles[i].push_out(result, margin);
                    pushed = true;
                }
                i = i + 1;
            }
            if !pushed {
                proof {
                    lemma_pass_fixpoint(obs, entry@, m, obs.len() as int);
                }
                return entry;
            }
            pass = pass + 1;
        }
        result
    }
}

/// Over a point that clears everything, a sweep pushes nothing.
proof fn lemma_pass_unpushed(obs: Seq<Obstacle>, p: V3, margin: int, k: int)
    requires
        0 <= k <= obs.len(),
        spec_all_clear(obs, p, margin),
    ensures
        spec_push_pass(obs, p, margin, k) == (p, false),
    decreases k,
{
    if k > 0 {
        lemma_pass_unpushed(obs, p, margin, k - 1);
    }
}

} // verus!
