//! Post-solve collision correction.
//!
//! `resolve_chain` sweeps every joint but the base out of all obstacles
//! and, when requested, re-imposes the frozen bone lengths by walking
//! the chain forward from the base; it repeats until a sweep moves
//! nothing or the iteration budget runs out.  The lemmas at the end
//! state what a finished (fixed-point) resolution guarantees.

use vstd::prelude::*;
use crate::vec3::Vec3;
use crate::vec3::V3;
use crate::vec3::spec_dist_sq;
use crate::vec3::spec_offset_from;
use crate::vec3::offset_from;
use crate::vec3::dist_sq;
use crate::chain::Chain;
use crate::chain::spec_total;
use crate::chain::lemma_total_take_step;
use crate::chain::lemma_total_prefix_le;
use crate::chain::lemma_total_nonneg;
use crate::chain::lemma_elem_le_total;
use crate::joint::Joint;
use crate::world::ObstacleWorld;
use crate::world::spec_push_point;
use crate::world::spec_all_clear;
use crate::obstacle::Obstacle;
use crate::fixed::MAX_ANCHOR;
use crate::fixed::MAX_POS;
use crate::fixed::MAX_MARGIN;
use crate::fixed::MOVE_EPS_SQ;

verus! {

/// Configuration of the collision response.
#[derive(Clone, Copy, Debug, PartialEq, Eq, Structural)]
pub struct CollisionConfig {
    /// Minimum clearance kept between a joint and any obstacle.
    pub margin: i64,
    /// How many resolve sweeps one call may run.
    pub max_iterations: u32,
    /// Whether to re-impose bone lengths after a sweep that moved joints.
    pub preserve_bone_lengths: bool,
}

impl CollisionConfig {
    /// A margin in the representable range.
    pub open spec fn wf(self) -> bool {
        0 <= self.margin <= MAX_MARGIN
    }

    /// The given margin with the default budget (four sweeps) and bone
    /// preservation on.
    pub fn new(margin: i64) -> (r: CollisionConfig)
        requires
            0 <= margin <= MAX_MARGIN,
        ensures
            r.margin == margin,
            r.max_iterations == 4,
            r.preserve_bone_lengths == true,
            r.wf(),
    {
        CollisionConfig { margin, max_iterations: 4, preserve_bone_lengths: true }
    }

    /// The same configuration with another sweep budget.
    pub fn with_iterations(self, iterations: u32) -> (r: CollisionConfig)
        ensures
            r.margin == self.margin,
            r.max_iterations == iterations,
            r.preserve_bone_lengths == self.preserve_bone_lengths,
    {
        CollisionConfig {
            margin: self.margin,
            max_iterations: iterations,
            preserve_bone_lengths: self.preserve_bone_lengths,
        }
    }

    /// The same configuration with bone preservation set.
    pub fn with_preserve_bone_lengths(self, preserve: bool) -> (r: CollisionConfig)
        ensures
            r.margin == self.margin,
            r.max_iterations == self.max_iterations,
            r.preserve_bone_lengths == preserve,
    {
        CollisionConfig {
            margin: self.margin,
            max_iterations: self.max_iterations,
            preserve_bone_lengths: preserve,
        }
    }
}

impl Default for CollisionConfig {
    /// Margin of a twentieth of a unit, four sweeps, preservation on.
    fn default() -> (r: CollisionConfig)
        ensures
            r.margin == 50_000,
            r.max_iterations == 4,
            r.preserve_bone_lengths == true,
            r.wf(),
    {
        CollisionConfig { margin: 50_000, max_iterations: 4, preserve_bone_lengths: true }
    }
}

/// One resolve sweep over joints `1 .. i`: each is pushed out of all
/// obstacles, and kept only when it moved by more than the epsilon.
pub open spec fn spec_resolve_pass(obs: Seq<Obstacle>, js: Seq<V3>, margin: int, i: int) -> (
    Seq<V3>, bool)
    decreases i,
{
    if i <= 1 {
        (js, false)
    } else {
        let prev = spec_resolve_pass(obs, js, margin, i - 1);
        let old_p = prev.0[i - 1];
        let new_p = spec_push_point(obs, old_p, margin, 4);
        if spec_dist_sq(new_p, old_p) > MOVE_EPS_SQ {
            (prev.0.update(i - 1, new_p), true)
        } else {
            prev
        }
    }
}

/// Re-impose bone lengths on joints `1 .. k`, walking forward from the
/// (unmoved) base.
pub open spec fn spec_fix_bones(js: Seq<V3>, bones: Seq<int>, k: int) -> Seq<V3>
    decreases k,
{
    if k <= 1 {
        js
    } else {
        let prev = spec_fix_bones(js, bones, k - 1);
        prev.update(k - 1, spec_offset_from(prev[k - 2], prev[k - 1], bones[k - 2]))
    }
}

/// The whole resolution: sweeps (each followed by a bone fix when
/// preservation is on) until one moves nothing or the budget is spent.
pub open spec fn spec_resolve(
    obs: Seq<Obstacle>,
    js: Seq<V3>,
    bones: Seq<int>,
    margin: int,
    preserve: bool,
    iters: int,
) -> Seq<V3>
    decreases iters,
{
    if iters <= 0 {
        js
    } else {
        let swept = spec_resolve_pass(obs, js, margin, js.len() as int);
        if !swept.1 {
            js
        } else {
            let fixed = if preserve {
                spec_fix_bones(swept.0, bones, js.len() as int)
            } else {
                swept.0
            };
            spec_resolve(obs, fixed, bones, margin, preserve, iters - 1)
        }
    }
}

/// A resolve sweep keeps the number of joints.
pub proof fn lemma_resolve_pass_len(obs: Seq<Obstacle>, js: Seq<V3>, margin: int, i: int)
    requires
        i <= js.len(),
    ensures
        spec_resolve_pass(obs, js, margin, i).0.len() == js.len(),
    decreases i,
{
    if i > 1 {
        lemma_resolve_pass_len(obs, js, margin, i - 1);
    }
}

/// The bone fix keeps the number of joints.
pub proof fn lemma_fix_bones_len(js: Seq<V3>, bones: Seq<int>, k: int)
    requires
        k <= js.len(),
    ensures
        spec_fix_bones(js, bones, k).len() == js.len(),
    decreases k,
{
    if k > 1 {
        lemma_fix_bones_len(js, bones, k - 1);
    }
}

/// The whole resolution keeps the number of joints.
pub proof fn lemma_resolve_len(
    obs: Seq<Obstacle>,
    js: Seq<V3>,
    bones: Seq<int>,
    margin: int,
    preserve: bool,
    iters: int,
)
    ensures
        spec_resolve(obs, js, bones, margin, preserve, iters).len() == js.len(),
    decreases iters,
{
    if iters > 0 {
        let swept = spec_resolve_pass(obs, js, margin, js.len() as int);
        lemma_resolve_pass_len(obs, js, margin, js.len() as int);
        if swept.1 {
            lemma_fix_bones_len(swept.0, bones, js.len() as int);
            if preserve {
                lemma_resolve_len(
                    obs, spec_fix_bones(swept.0, bones, js.len() as int), bones, margin,
                    preserve, iters - 1);
            } else {
                lemma_resolve_len(obs, swept.0, bones, margin, preserve, iters - 1);
            }
        }
    }
}

/// Bone-length invariance, from below, for the fix pass: every bone it
/// re-imposes comes out at least its frozen length (the away-from-zero
/// rounding never shortens a bone).
pub proof fn lemma_fix_bones_lower(js: Seq<V3>, bones: Seq<int>, k: int)
    requires
        k <= js.len(),
        k <= bones.len() + 1,
        forall|i: int| 0 <= i < bones.len() ==> 0 <= #[trigger] bones[i],
    ensures
        forall|j: int|
            1 <= j < k ==> spec_dist_sq(
                #[trigger] spec_fix_bones(js, bones, k)[j],
                spec_fix_bones(js, bones, k)[j - 1],
            ) >= crate::vec3::sq(bones[j - 1]),
    decreases k,
{
    if k > 1 {
        lemma_fix_bones_lower(js, bones, k - 1);
        lemma_fix_bones_len(js, bones, k - 1);
        let prev = spec_fix_bones(js, bones, k - 1);
        let s = spec_fix_bones(js, bones, k);
        crate::vec3::lemma_offset_from_props(prev[k - 2], prev[k - 1], bones[k - 2]);
        assert(s[k - 1] == spec_offset_from(prev[k - 2], prev[k - 1], bones[k - 2]));
        assert(s[k - 2] == prev[k - 2]);
        assert forall|j: int| 1 <= j < k implies spec_dist_sq(
            #[trigger] s[j], s[j - 1]) >= crate::vec3::sq(bones[j - 1]) by {
            if j < k - 1 {
                assert(s[j] == prev[j]);
                assert(s[j - 1] == prev[j - 1]);
            } else {
                assert(crate::vec3::sq(bones[k - 2]) == bones[k - 2] * bones[k - 2]);
            }
        }
    }
}

/// A sweep that kept nothing left the joints exactly as they were, and
/// every pushed joint had moved by at most the epsilon.
#[verifier::rlimit(60)]
pub proof fn lemma_resolve_pass_unchanged(obs: Seq<Obstacle>, js: Seq<V3>, margin: int, i: int)
    requires
        !spec_resolve_pass(obs, js, margin, i).1,
    ensures
        spec_resolve_pass(obs, js, margin, i).0 == js,
        forall|j: int|
            1 <= j < i ==> spec_dist_sq(
                spec_push_point(obs, #[trigger] js[j], margin, 4), js[j]) <= MOVE_EPS_SQ,
    decreases i,
{
    if i > 1 {
        let prev = spec_resolve_pass(obs, js, margin, i - 1);
        assert(!prev.1);
        lemma_resolve_pass_unchanged(obs, js, margin, i - 1);
    }
}

/// Joints that already clear every obstacle are left alone by the
/// resolution.
pub proof fn lemma_resolve_clear_identity(
    obs: Seq<Obstacle>,
    js: Seq<V3>,
    bones: Seq<int>,
    margin: int,
    preserve: bool,
    iters: int,
)
    requires
        forall|j: int| 1 <= j < js.len() ==> spec_all_clear(obs, #[trigger] js[j], margin),
    ensures
        spec_resolve(obs, js, bones, margin, preserve, iters) == js,
    decreases iters,
{
    if iters > 0 {
        lemma_resolve_pass_clear(obs, js, margin, js.len() as int);
    }
}

/// Over joints that all clear every obstacle, a sweep pushes nothing.
proof fn lemma_resolve_pass_clear(obs: Seq<Obstacle>, js: Seq<V3>, margin: int, i: int)
    requires
        forall|j: int| 1 <= j < js.len() ==> spec_all_clear(obs, #[trigger] js[j], margin),
        i <= js.len(),
    ensures
        spec_resolve_pass(obs, js, margin, i) == (js, false),
    decreases i,
{
    if i > 1 {
        lemma_resolve_pass_clear(obs, js, margin, i - 1);
        crate::world::lemma_push_point_clear_identity(obs, js[i - 1], margin);
        assert(spec_dist_sq(js[i - 1], js[i - 1]) == 0) by {
            assert(crate::vec3::sq(0) == 0) by (nonlinear_arith);
        }
    }
}

/// The correction pass: push joints out of obstacles and restore bone
/// lengths.
pub struct CollisionResponse;

impl CollisionResponse {
    /// Push every joint except the base out of all obstacles; when any
    /// joint moved and `preserve_bone_lengths` is set, re-walk the
    /// chain from the base re-imposing the frozen bone lengths; repeat
    /// until a sweep moves nothing or the budget is spent.
    ///
    /// The chain's structure (joint count, constraints, bone lengths,
    /// tolerance, budget) and its base are untouched, and the final
    /// positions are exactly the resolution of the initial ones.
    #[verifier::rlimit(100)]
    pub fn resolve_chain(chain: &mut Chain, world: &ObstacleWorld, config: &CollisionConfig)
        requires
            old(chain).wf(),
            world.wf(),
            config.wf(),
            old(chain).joints@.len() >= 2 ==> old(chain).pos_seq()[0].bounded(MAX_ANCHOR as int),
        ensures
            final(chain).wf(),
            final(chain).joints@.len() == old(chain).joints@.len(),
            final(chain).bone_lengths@ == old(chain).bone_lengths@,
            final(chain).tolerance == old(chain).tolerance,
            final(chain).max_iterations == old(chain).max_iterations,
            forall|i: int|
                0 <= i < old(chain).joints@.len() ==> final(chain).joints@[i].constraint
                    == #[trigger] old(chain).joints@[i].constraint,
            world.obstacles@.len() == 0 || old(chain).joints@.len() < 2 ==> final(chain).joints@
                == old(chain).joints@,
            world.obstacles@.len() > 0 && old(chain).joints@.len() >= 2 ==> final(
                chain).pos_seq() == spec_resolve(
                world.obstacles@,
                old(chain).pos_seq(),
                old(chain).bones(),
                config.margin as int,
                config.preserve_bone_lengths,
                config.max_iterations as int,
            ),
            final(chain).joints@.len() > 0 ==> final(chain).pos_seq()[0] == old(
                chain).pos_seq()[0],
    {
        let n = chain.joints.len();
        if world.obstacle_count() == 0 || n < 2 {
            return;
        }
        let ghost obs = world.obstacles@;
        let ghost bones = chain.bones();
        let ghost m = config.margin as int;
        let ghost js0 = chain.pos_seq();
        let mut it: u32 = 0;
        while it < config.max_iterations
            invariant
                chain.wf(),
                world.wf(),
                config.wf(),
                obs == world.obstacles@,
                bones == chain.bones(),
                m == config.margin as int,
                n == chain.joints@.len(),
                n == old(chain).joints@.len(),
                2 <= n,
                obs.len() > 0,
                0 <= it <= config.max_iterations,
                chain.bone_lengths@ == old(chain).bone_lengths@,
                chain.tolerance == old(chain).tolerance,
                chain.max_iterations == old(chain).max_iterations,
                forall|i: int|
                    0 <= i < n ==> chain.joints@[i].constraint == #[trigger] old(
                        chain).joints@[i].constraint,
                chain.pos_seq()[0] == js0[0],
                js0 == old(chain).pos_seq(),
                chain.pos_seq()[0].bounded(MAX_ANCHOR as int),
                spec_resolve(obs, js0, bones, m, config.preserve_bone_lengths,
                    config.max_iterations as int) == spec_resolve(obs, chain.pos_seq(), bones, m,
                    config.preserve_bone_lengths, config.max_iterations - it),
            decreases config.max_iterations - it,
        {
            let ghost entry = chain.pos_seq();
            let mut any_collision = false;
            let mut i: usize = 1;
            while i < n
                invariant
                    chain.wf(),
                    world.wf(),
                    config.wf(),
                    obs == world.obstacles@,
                    bones == chain.bones(),
                    m == config.margin as int,
                    n == chain.joints@.len(),
                    n == old(chain).joints@.len(),
                    2 <= n,
                    1 <= i <= n,
                    chain.bone_lengths@ == old(chain).bone_lengths@,
                    chain.tolerance == old(chain).tolerance,
                    chain.max_iterations == old(chain).max_iterations,
                    forall|k: int|
                        0 <= k < n ==> chain.joints@[k].constraint == #[trigger] old(
                            chain).joints@[k].constraint,
                    chain.pos_seq()[0] == entry[0],
                    entry[0].bounded(MAX_ANCHOR as int),
                    (chain.pos_seq(), any_collision) == spec_resolve_pass(obs, entry, m, i as int),
                decreases n - i,
            {
                proof {
                    assert(chain.pos_seq()[i as int] == chain.joints@[i as int].position@);
                }
                let old_pos = chain.joints[i].position;
                let new_pos = world.push_out_point(old_pos, config.margin);
                let moved = dist_sq(new_pos, old_pos);
                if moved > crate::fixed::MOVE_EPS_SQ {
                    let c = chain.joints[i].constraint;
                    chain.joints.set(i, Joint { position: new_pos, constraint: c });
                    any_collision = true;
                    proof {
                        assert(chain.pos_seq() =~= spec_resolve_pass(obs, entry, m, i as int).0
                            .update(i as int, new_pos@));
                    }
                }
                i = i + 1;
            }
            if config.preserve_bone_lengths && any_collision {
                Self::fix_bone_lengths(chain);
            }
            if !any_collision {
                proof {
                    lemma_resolve_pass_unchanged(obs, entry, m, n as int);
                    let rem = config.max_iterations - it;
                    assert(rem > 0);
                    assert(spec_resolve(obs, entry, bones, m, config.preserve_bone_lengths, rem
                        as int) == entry);
                }
                return;
            }
            proof {
                let rem = config.max_iterations - it;
                assert(spec_resolve_pass(obs, entry, m, entry.len() as int).1);
                assert(spec_resolve(obs, entry, bones, m, config.preserve_bone_lengths,
                    rem as int) == spec_resolve(obs, chain.pos_seq(), bones, m,
                    config.preserve_bone_lengths, rem - 1));
            }
            it = it + 1;
        }
    }

    /// Walk the chain forward from the base, restoring every bone to
    /// its frozen length.
    pub(crate) fn fix_bone_lengths(chain: &mut Chain)
        requires
            old(chain).wf(),
            old(chain).joints@.len() >= 2,
            old(chain).pos_seq()[0].bounded(MAX_ANCHOR as int),
        ensures
            final(chain).wf(),
            final(chain).joints@.len() == old(chain).joints@.len(),
            final(chain).bone_lengths@ == old(chain).bone_lengths@,
            final(chain).tolerance == old(chain).tolerance,
            final(chain).max_iterations == old(chain).max_iterations,
            forall|i: int|
                0 <= i < old(chain).joints@.len() ==> final(chain).joints@[i].constraint
                    == #[trigger] old(chain).joints@[i].constraint,
            final(chain).pos_seq() == spec_fix_bones(
                old(chain).pos_seq(),
                old(chain).bones(),
                old(chain).joints@.len() as int,
            ),
            final(chain).pos_seq()[0] == old(chain).pos_seq()[0],
            final(chain).pos_seq()[0].bounded(MAX_ANCHOR as int),
    {
        let n = chain.joints.len();
        let ghost js0 = chain.pos_seq();
        let ghost bones = chain.bones();
        let mut k: usize = 1;
        proof {
            assert(bones.take(0) =~= Seq::<int>::empty());
        }
        while k < n
            invariant
                chain.wf(),
                n == chain.joints@.len(),
                2 <= n,
                1 <= k <= n,
                bones == chain.bones(),
                js0 == old(chain).pos_seq(),
                js0[0].bounded(MAX_ANCHOR as int),
                chain.bone_lengths@ == old(chain).bone_lengths@,
                chain.tolerance == old(chain).tolerance,
                chain.max_iterations == old(chain).max_iterations,
                forall|i: int|
                    0 <= i < n ==> chain.joints@[i].constraint == #[trigger] old(
                        chain).joints@[i].constraint,
                chain.pos_seq() == spec_fix_bones(js0, bones, k as int),
                chain.pos_seq()[0] == js0[0],
                forall|i: int|
                    0 <= i < k ==> (#[trigger] chain.pos_seq()[i]).bounded(
                        MAX_ANCHOR + spec_total(bones.take(i))),
            decreases n - k,
        {
            proof {
                lemma_total_take_step(bones, k as int - 1);
                lemma_total_prefix_le(bones, k as int);
                lemma_total_nonneg(bones.take(k as int - 1));
                lemma_elem_le_total(bones, k as int - 1);
                assert(chain.pos_seq()[k as int - 1] == chain.joints@[k as int - 1].position@);
                assert(chain.pos_seq()[k as int] == chain.joints@[k as int].position@);
                assert(bones[k as int - 1] == chain.bone_lengths@[k as int - 1] as int);
                assert(chain.pos_seq()[k as int - 1].bounded(
                    MAX_ANCHOR + spec_total(bones.take(k as int - 1))));
                assert(MAX_ANCHOR + spec_total(bones.take(k as int - 1)) <= MAX_POS);
                assert(chain.pos_seq()[k as int].bounded(MAX_POS as int));
            }
            let anchor = chain.joints[k - 1].position;
            let toward = chain.joints[k].position;
            let len = chain.bone_lengths[k - 1];
            let placed = offset_from(anchor, toward, len);
            let c = chain.joints[k].constraint;
            chain.joints.set(k, Joint { position: placed, constraint: c });
            proof {
                assert(chain.pos_seq() =~= spec_fix_bones(js0, bones, k as int).update(
                    k as int, placed@));
                assert(chain.pos_seq() =~= spec_fix_bones(js0, bones, k as int + 1));
            }
            k = k + 1;
        }
    }

    /// Whether any joint lies inside any obstacle.
    pub fn has_collision(chain: &Chain, world: &ObstacleWorld) -> (r: bool)
        requires
            chain.wf(),
            world.wf(),
        ensures
            r == exists|i: int|
                0 <= i < chain.joints@.len() && crate::world::spec_inside_any(
                    world.obstacles@, #[trigger] chain.pos_seq()[i]),
    {
        let n = chain.joints.len();
        let mut i: usize = 0;
        while i < n
            invariant
                chain.wf(),
                world.wf(),
                n == chain.joints@.len(),
                0 <= i <= n,
                forall|j: int|
                    0 <= j < i ==> !crate::world::spec_inside_any(
                        world.obstacles@, #[trigger] chain.pos_seq()[j]),
            decreases n - i,
        {
            proof {
                assert(chain.pos_seq()[i as int] == chain.joints@[i as int].position@);
            }
            if world.point_inside_any(chain.joints[i].position) {
                proof {
                    assert(crate::world::spec_inside_any(
                        world.obstacles@, chain.pos_seq()[i as int]));
                }
                return true;
            }
            i = i + 1;
        }
        false
    }

    /// Indices of the joints that lie inside some obstacle, in order.
    pub fn colliding_joints(chain: &Chain, world: &ObstacleWorld) -> (r: Vec<usize>)
        requires
            chain.wf(),
            world.wf(),
        ensures
            r@.map(|k: int, v: usize| v as int) == spec_colliding_upto(
                world.obstacles@, chain.pos_seq(), chain.joints@.len() as int),
    {
        let n = chain.joints.len();
        let mut out: Vec<usize> = Vec::new();
        let mut i: usize = 0;
        proof {
            assert(out@.map(|k: int, v: usize| v as int) =~= spec_colliding_upto(
                world.obstacles@, chain.pos_seq(), 0));
        }
        while i < n
            invariant
                chain.wf(),
                world.wf(),
                n == chain.joints@.len(),
                0 <= i <= n,
                out@.map(|k: int, v: usize| v as int) == spec_colliding_upto(
                    world.obstacles@, chain.pos_seq(), i as int),
            decreases n - i,
        {
            proof {
                assert(chain.pos_seq()[i as int] == chain.joints@[i as int].position@);
            }
            if world.point_inside_any(chain.joints[i].position) {
                out.push(i);
                proof {
                    assert(out@.map(|k: int, v: usize| v as int) =~= spec_colliding_upto(
                        world.obstacles@, chain.pos_seq(), i as int).push(i as int));
                }
            }
            proof {
                assert(out@.map(|k: int, v: usize| v as int) =~= spec_colliding_upto(
                    world.obstacles@, chain.pos_seq(), i as int + 1));
            }
            i = i + 1;
        }
        out
    }
}

/// A diagnostic record of one pushed joint, for visualization.
#[derive(Clone, Copy, Debug, PartialEq, Eq, Structural)]
pub struct CollisionHit {
    /// The joint position before the push.
    pub original: Vec3,
    /// The position after the push.
    pub pushed: Vec3,
    /// Nearest point of the nearest obstacle's surface.
    pub surface_point: Vec3,
    /// Outward surface normal there.
    pub normal: Vec3,
}

/// Mathematical view of a collision hit.
pub ghost struct CollisionHitV {
    pub original: V3,
    pub pushed: V3,
    pub surface_point: V3,
    pub normal: V3,
}

impl View for CollisionHit {
    type V = CollisionHitV;

    open spec fn view(&self) -> CollisionHitV {
        CollisionHitV {
            original: self.original@,
            pushed: self.pushed@,
            surface_point: self.surface_point@,
            normal: self.normal@,
        }
    }
}

/// The hit record of a joint against the obstacle nearest it.
pub open spec fn spec_hit_of(obs: Seq<Obstacle>, p: V3, margin: int) -> CollisionHitV {
    let idx = crate::world::spec_closest_idx(obs, p, obs.len() as int);
    let o = obs[idx];
    let surface = match o {
        Obstacle::Sphere(s) => spec_offset_from(s.center@, p, s.radius as int),
        Obstacle::Aabb(b) => crate::obstacle::spec_aabb_closest(b, p),
    };
    let normal = match o {
        Obstacle::Sphere(s) => crate::vec3::spec_normalize(
            V3 {
                x: surface.x - s.center@.x,
                y: surface.y - s.center@.y,
                z: surface.z - s.center@.z,
            },
        ),
        Obstacle::Aabb(b) => crate::obstacle::spec_aabb_normal(b, surface),
    };
    CollisionHitV {
        original: p,
        pushed: spec_push_point(obs, p, margin, 4),
        surface_point: surface,
        normal,
    }
}

/// The hit records of the joints beyond the base that the push-out
/// would move materially, in joint order.
pub open spec fn spec_hits_upto(obs: Seq<Obstacle>, js: Seq<V3>, margin: int, i: int) -> Seq<
    CollisionHitV>
    decreases i,
{
    if i <= 1 {
        Seq::empty()
    } else {
        let prev = spec_hits_upto(obs, js, margin, i - 1);
        let p = js[i - 1];
        let pushed = spec_push_point(obs, p, margin, 4);
        if spec_dist_sq(pushed, p) > MOVE_EPS_SQ && obs.len() > 0 {
            prev.push(spec_hit_of(obs, p, margin))
        } else {
            prev
        }
    }
}

impl CollisionResponse {
    /// Diagnostic hits: for each joint beyond the base that the
    /// push-out would move materially, the record of the obstacle
    /// nearest its unpushed position.
    #[verifier::rlimit(100)]
    pub fn get_collision_hits(chain: &Chain, world: &ObstacleWorld, margin: i64) -> (r: Vec<
        CollisionHit>)
        requires
            chain.wf(),
            world.wf(),
            0 <= margin <= MAX_MARGIN,
        ensures
            r@.map(|k: int, h: CollisionHit| h@) == spec_hits_upto(
                world.obstacles@, chain.pos_seq(), margin as int, chain.joints@.len() as int),
    {
        let n = chain.joints.len();
        let ghost obs = world.obstacles@;
        let ghost js = chain.pos_seq();
        let mut hits: Vec<CollisionHit> = Vec::new();
        let mut i: usize = 1;
        proof {
            assert(hits@.map(|k: int, h: CollisionHit| h@) =~= spec_hits_upto(
                obs, js, margin as int, 1));
        }
        while i < n
            invariant
                chain.wf(),
                world.wf(),
                obs == world.obstacles@,
                js == chain.pos_seq(),
                0 <= margin <= MAX_MARGIN,
                n == chain.joints@.len(),
                1 <= i <= if n > 1 { n as int } else { 1int },
                hits@.map(|k: int, h: CollisionHit| h@) == spec_hits_upto(
                    obs, js, margin as int, i as int),
            decreases n - i,
        {
            proof {
                assert(js[i as int] == chain.joints@[i as int].position@);
            }
            let pos = chain.joints[i].position;
            let pushed = world.push_out_point(pos, margin);
            let moved = dist_sq(pushed, pos);
            if moved > MOVE_EPS_SQ {
                match world.closest_obstacle(pos) {
                    Some((idx, _)) => {
                        let obstacle = &world.obstacles[idx];
                        let surface_point = obstacle.closest_surface_point(pos);
                        let normal = obstacle.surface_normal(surface_point);
                        let hit = CollisionHit { original: pos, pushed, surface_point, normal };
                        hits.push(hit);
                        proof {
                            assert(hit@ == spec_hit_of(obs, js[i as int], margin as int));
                            assert(hits@.map(|k: int, h: CollisionHit| h@) =~= spec_hits_upto(
                                obs, js, margin as int, i as int).push(
                                spec_hit_of(obs, js[i as int], margin as int)));
                        }
                    },
                    None => {
                        proof {
                            assert(obs.len() == 0);
                        }
                    },
                }
            }
            proof {
                assert(hits@.map(|k: int, h: CollisionHit| h@) =~= spec_hits_upto(
                    obs, js, margin as int, i as int + 1));
            }
            i = i + 1;
        }
        proof {
            if n <= 1 {
                assert(hits@.map(|k: int, h: CollisionHit| h@) =~= spec_hits_upto(
                    obs, js, margin as int, n as int));
            }
        }
        hits
    }
}

/// Indices below `i` whose joint sits inside some obstacle.
pub open spec fn spec_colliding_upto(obs: Seq<Obstacle>, js: Seq<V3>, i: int) -> Seq<int>
    decreases i,
{
    if i <= 0 {
        Seq::empty()
    } else {
        let prev = spec_colliding_upto(obs, js, i - 1);
        if crate::world::spec_inside_any(obs, js[i - 1]) {
            prev.push(i - 1)
        } else {
            prev
        }
    }
}

} // verus!
