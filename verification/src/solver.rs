//! The FABRIK solver.
//!
//! Each solve pins the chain's end at the target and walks back to the
//! base (forward pass), then pins the base and walks out to the end
//! (backward pass), repositioning every joint at its frozen bone length
//! from its already-placed neighbour.  A target beyond the chain's
//! total length is not iterated toward: the chain is stretched straight
//! at it.  The collision-aware variant runs the collision response
//! after each round and then restores bone lengths from the base.
//!
//! Every entry point reports `{converged, iterations, final_distance}`
//! and pins the resulting joint positions exactly, as a function of the
//! starting positions.
//!
//! Joint constraints are carried on the joints and preserved by every
//! pass, and `Joint::apply_constraint` is verified on its own, but the
//! passes here do not invoke it while repositioning: constraint
//! enforcement is left to the caller as a post-step, not folded into
//! the walk.

use vstd::prelude::*;
use crate::vec3::Vec3;
use crate::vec3::V3;
use crate::vec3::sq;
use crate::vec3::spec_dist;
use crate::vec3::spec_dist_sq;
use crate::vec3::spec_offset_from;
use crate::vec3::offset_from;
use crate::vec3::dist;
use crate::chain::Chain;
use crate::chain::spec_total;
use crate::chain::lemma_total_take_step;
use crate::chain::lemma_total_prefix_le;
use crate::chain::lemma_total_nonneg;
use crate::chain::lemma_elem_le_total;
use crate::joint::Joint;
use crate::world::ObstacleWorld;
use crate::response::CollisionConfig;
use crate::response::CollisionResponse;
use crate::response::spec_resolve;
use crate::response::spec_fix_bones;
use crate::obstacle::Obstacle;
use crate::fixed::MAX_ANCHOR;
use crate::fixed::MAX_POS;
use crate::fixed::MAX_REACH;
use crate::fixed::DEGEN_EPS_SQ;

verus! {

/// Outcome of one solve call.
#[derive(Clone, Copy, Debug, PartialEq, Eq, Structural)]
pub struct SolveResult {
    /// Whether the end effector ended within tolerance of the target.
    pub converged: bool,
    /// Iterations actually spent.
    pub iterations: u32,
    /// Final end-effector distance to the target (or, for an
    /// unreachable target, the shortfall beyond the chain's length).
    pub final_distance: i64,
}

/// The stateless FABRIK solver.
pub struct FabrikSolver;

/// Forward pass: positions after pinning the last joint at `target`
/// and repositioning joints `n-2` down to `k`, each at its bone length
/// from its successor.
pub open spec fn spec_forward_upto(js: Seq<V3>, bones: Seq<int>, target: V3, k: int) -> Seq<V3>
    decreases js.len() - k,
{
    if k >= js.len() - 1 {
        js.update(js.len() - 1, target)
    } else {
        let s = spec_forward_upto(js, bones, target, k + 1);
        s.update(k, spec_offset_from(s[k + 1], s[k], bones[k]))
    }
}

/// Backward pass: positions after pinning the first joint at `base`
/// and repositioning joints `1` up to `k`, each at its bone length
/// from its predecessor.
pub open spec fn spec_backward_upto(js: Seq<V3>, bones: Seq<int>, base: V3, k: int) -> Seq<V3>
    decreases k,
{
    if k <= 0 {
        js.update(0, base)
    } else {
        let s = spec_backward_upto(js, bones, base, k - 1);
        s.update(k, spec_offset_from(s[k - 1], s[k], bones[k - 1]))
    }
}

/// One full FABRIK round: forward pass to the target, backward pass
/// from the base.
pub open spec fn spec_fabrik_round(js: Seq<V3>, bones: Seq<int>, target: V3, base: V3) -> Seq<
    V3> {
    spec_backward_upto(
        spec_forward_upto(js, bones, target, 0),
        bones,
        base,
        js.len() - 1,
    )
}

/// The straight stretch at an unreachable target: every joint on the
/// base-to-target ray at its cumulative bone-length offset.  A
/// degenerate direction falls back, inside the placement itself, to
/// straight up from the base.
pub open spec fn spec_stretch(js: Seq<V3>, bones: Seq<int>, base: V3, target: V3) -> Seq<V3> {
    Seq::new(
        js.len(),
        |i: int|
            if i == 0 {
                base
            } else {
                spec_offset_from(base, target, spec_total(bones.take(i)))
            },
    )
}

/// The plain solve loop: FABRIK rounds until the end effector is
/// within tolerance of the target or the fuel runs out.  Yields the
/// final positions and the number of rounds spent.
pub open spec fn spec_solve_loop(
    js: Seq<V3>,
    bones: Seq<int>,
    target: V3,
    base: V3,
    tol: int,
    fuel: int,
) -> (Seq<V3>, int)
    decreases fuel,
{
    if fuel <= 0 {
        (js, 0)
    } else {
        let next = spec_fabrik_round(js, bones, target, base);
        if spec_dist(next.last(), target) <= tol {
            (next, 1)
        } else {
            let rest = spec_solve_loop(next, bones, target, base, tol, fuel - 1);
            (rest.0, rest.1 + 1)
        }
    }
}

/// The collision-aware solve loop: each round is a FABRIK round, the
/// collision resolution, a re-pin of the base and a forward re-walk of
/// the bone lengths.
pub open spec fn spec_solve_collision_loop(
    js: Seq<V3>,
    bones: Seq<int>,
    target: V3,
    base: V3,
    tol: int,
    obs: Seq<Obstacle>,
    margin: int,
    preserve: bool,
    citers: int,
    fuel: int,
) -> (Seq<V3>, int)
    decreases fuel,
{
    if fuel <= 0 {
        (js, 0)
    } else {
        let rounded = spec_fabrik_round(js, bones, target, base);
        let resolved = if obs.len() > 0 {
            spec_resolve(obs, rounded, bones, margin, preserve, citers)
        } else {
            rounded
        };
        let pinned = resolved.update(0, base);
        let next = spec_fix_bones(pinned, bones, js.len() as int);
        if spec_dist(next.last(), target) <= tol {
            (next, 1)
        } else {
            let rest = spec_solve_collision_loop(
                next, bones, target, base, tol, obs, margin, preserve, citers, fuel - 1);
            (rest.0, rest.1 + 1)
        }
    }
}

impl FabrikSolver {
    /// Solve toward `target`, anchored at the chain's own first joint.
    pub fn solve(chain: &mut Chain, target: Vec3) -> (r: SolveResult)
        requires
            old(chain).wf(),
            target@.bounded(MAX_ANCHOR as int),
            old(chain).joints@.len() > 0 ==> old(chain).pos_seq()[0].bounded(MAX_ANCHOR as int),
        ensures
            final(chain).wf(),
            old(chain).joints@.len() == 0 ==> final(chain).joints@ == old(chain).joints@
                && r == (SolveResult { converged: true, iterations: 0, final_distance: 0 }),
            old(chain).joints@.len() > 0 ==> spec_solve_anchored_post(
                *old(chain), *final(chain), target@, old(chain).pos_seq()[0], r),
            final(chain).joints@.len() > 0 ==> final(chain).pos_seq()[0].bounded(
                MAX_ANCHOR as int),
    {
        if chain.joints.len() == 0 {
            return SolveResult { converged: true, iterations: 0, final_distance: 0 };
        }
        let base = chain.joints[0].position;
        proof {
            assert(base@ == chain.pos_seq()[0]);
        }
        Self::solve_anchored(chain, target, base)
    }

    /// Solve toward `target`, anchored at an explicit `base`.
    ///
    /// A chain of fewer than two joints is already converged and left
    /// untouched.  A target farther than the chain's total length is
    /// not iterated toward: the chain is stretched straight at it and
    /// the shortfall is reported.  Otherwise FABRIK rounds run until
    /// the end effector is within tolerance or the budget is spent,
    /// and the report's `converged` holds exactly when the final
    /// distance meets the tolerance.
    pub fn solve_anchored(chain: &mut Chain, target: Vec3, base: Vec3) -> (r: SolveResult)
        requires
            old(chain).wf(),
            target@.bounded(MAX_ANCHOR as int),
            base@.bounded(MAX_ANCHOR as int),
        ensures
            final(chain).wf(),
            spec_solve_anchored_post(*old(chain), *final(chain), target@, base@, r),
            final(chain).joints@.len() >= 2 ==> (final(chain).pos_seq()[0].bounded(
                MAX_ANCHOR as int) || final(chain).pos_seq()[0] == old(chain).pos_seq()[0]),
    {
        let n = chain.joints.len();
        if n < 2 {
            proof {
                if n == 1 {
                    assert(chain.pos_seq() =~= old(chain).pos_seq());
                }
            }
            return SolveResult { converged: true, iterations: 0, final_distance: 0 };
        }
        let ghost js0 = chain.pos_seq();
        let ghost bones = chain.bones();
        let total = chain.total_length();
        let d = dist(base, target);
        if d > total {
            Self::stretch_towards_target(chain, base, target);
            return SolveResult { converged: false, iterations: 1, final_distance: d - total };
        }
        let tolerance = chain.tolerance;
        let max_iterations = chain.max_iterations;
        let ghost tol = tolerance as int;
        let mut iteration: u32 = 0;
        while iteration < max_iterations
            invariant
                chain.wf(),
                n == chain.joints@.len(),
                n == old(chain).joints@.len(),
                2 <= n,
                0 <= iteration <= max_iterations,
                max_iterations == old(chain).max_iterations,
                tolerance == old(chain).tolerance,
                tol == tolerance as int,
                bones == chain.bones(),
                js0 == old(chain).pos_seq(),
                target@.bounded(MAX_ANCHOR as int),
                base@.bounded(MAX_ANCHOR as int),
                chain.bone_lengths@ == old(chain).bone_lengths@,
                chain.tolerance == old(chain).tolerance,
                chain.max_iterations == old(chain).max_iterations,
                forall|i: int|
                    0 <= i < n ==> chain.joints@[i].constraint == #[trigger] old(
                        chain).joints@[i].constraint,
                spec_dist(base@, target@) <= spec_total(bones),
                iteration == 0 ==> chain.pos_seq() == js0,
                iteration > 0 ==> chain.pos_seq()[0] == base@,
                spec_solve_loop(js0, bones, target@, base@, tol, max_iterations as int).0
                    == spec_solve_loop(chain.pos_seq(), bones, target@, base@, tol,
                    max_iterations - iteration).0,
                spec_solve_loop(js0, bones, target@, base@, tol, max_iterations as int).1
                    == iteration + spec_solve_loop(chain.pos_seq(), bones, target@, base@, tol,
                    max_iterations - iteration).1,
            decreases max_iterations - iteration,
        {
            let ghost entry = chain.pos_seq();
            Self::forward_pass(chain, target);
            Self::backward_pass(chain, base);
            proof {
                assert(chain.pos_seq() == spec_fabrik_round(entry, bones, target@, base@));
            }
            let end = chain.joints[n - 1].position;
            proof {
                assert(chain.pos_seq().last() == end@);
            }
            let distance = dist(end, target);
            if distance <= tolerance {
                proof {
                    let rem = max_iterations - iteration;
                    assert(spec_solve_loop(entry, bones, target@, base@, tol, rem as int)
                        == (chain.pos_seq(), 1int));
                }
                return SolveResult {
                    converged: true,
                    iterations: iteration + 1,
                    final_distance: distance,
                };
            }
            proof {
                let rem = max_iterations - iteration;
                assert(spec_solve_loop(entry, bones, target@, base@, tol, rem as int).0
                    == spec_solve_loop(chain.pos_seq(), bones, target@, base@, tol,
                    rem - 1).0);
                assert(spec_solve_loop(entry, bones, target@, base@, tol, rem as int).1
                    == 1 + spec_solve_loop(chain.pos_seq(), bones, target@, base@, tol,
                    rem - 1).1);
            }
            iteration = iteration + 1;
        }
        let end = chain.joints[n - 1].position;
        proof {
            assert(chain.pos_seq().last() == end@);
        }
        let final_distance = dist(end, target);
        SolveResult {
            converged: final_distance <= tolerance,
            iterations: max_iterations,
            final_distance,
        }
    }

    /// The forward pass: pin the end at the target, walk back to the
    /// base.
    fn forward_pass(chain: &mut Chain, target: Vec3)
        requires
            old(chain).wf(),
            old(chain).joints@.len() >= 2,
            target@.bounded(MAX_ANCHOR as int),
        ensures
            final(chain).wf(),
            final(chain).joints@.len() == old(chain).joints@.len(),
            final(chain).bone_lengths@ == old(chain).bone_lengths@,
            final(chain).tolerance == old(chain).tolerance,
            final(chain).max_iterations == old(chain).max_iterations,
            forall|i: int|
                0 <= i < old(chain).joints@.len() ==> final(chain).joints@[i].constraint
                    == #[trigger] old(chain).joints@[i].constraint,
            final(chain).pos_seq() == spec_forward_upto(
                old(chain).pos_seq(), old(chain).bones(), target@, 0),
    {
        let n = chain.joints.len();
        let ghost js0 = chain.pos_seq();
        let ghost bones = chain.bones();
        let ghost tv = target@;
        let c_last = chain.joints[n - 1].constraint;
        chain.joints.set(n - 1, Joint { position: target, constraint: c_last });
        proof {
            assert(chain.pos_seq() =~= spec_forward_upto(js0, bones, tv, n as int - 1));
            lemma_total_prefix_le(bones, n as int - 1);
            lemma_total_nonneg(bones.take(n as int - 1));
            assert(bones.take(n as int - 1) =~= bones);
        }
        let mut k: usize = n - 1;
        while k > 0
            invariant
                chain.wf(),
                n == chain.joints@.len(),
                n == old(chain).joints@.len(),
                2 <= n,
                0 <= k <= n - 1,
                bones == chain.bones(),
                js0 == old(chain).pos_seq(),
                tv == target@,
                tv.bounded(MAX_ANCHOR as int),
                chain.bone_lengths@ == old(chain).bone_lengths@,
                chain.tolerance == old(chain).tolerance,
                chain.max_iterations == old(chain).max_iterations,
                forall|i: int|
                    0 <= i < n ==> chain.joints@[i].constraint == #[trigger] old(
                        chain).joints@[i].constraint,
                chain.pos_seq() == spec_forward_upto(js0, bones, tv, k as int),
                forall|i: int|
                    k <= i < n ==> (#[trigger] chain.pos_seq()[i]).bounded(
                        MAX_ANCHOR + spec_total(bones) - spec_total(bones.take(i))),
            decreases k,
        {
            proof {
                lemma_total_take_step(bones, k as int - 1);
                lemma_total_prefix_le(bones, k as int - 1);
                lemma_total_nonneg(bones.take(k as int - 1));
                lemma_elem_le_total(bones, k as int - 1);
                assert(chain.pos_seq()[k as int] == chain.joints@[k as int].position@);
                assert(chain.pos_seq()[k as int - 1] == chain.joints@[k as int - 1].position@);
                assert(bones[k as int - 1] == chain.bone_lengths@[k as int - 1] as int);
                assert(chain.pos_seq()[k as int].bounded(
                    MAX_ANCHOR + spec_total(bones) - spec_total(bones.take(k as int))));
            }
            let successor = chain.joints[k].position;
            let current = chain.joints[k - 1].position;
            let len = chain.bone_lengths[k - 1];
            let placed = offset_from(successor, current, len);
            let c = chain.joints[k - 1].constraint;
            chain.joints.set(k - 1, Joint { position: placed, constraint: c });
            proof {
                assert(chain.pos_seq() =~= spec_forward_upto(js0, bones, tv, k as int).update(
                    k as int - 1, placed@));
                assert(chain.pos_seq() =~= spec_forward_upto(js0, bones, tv, k as int - 1));
            }
            k = k - 1;
        }
    }

    /// The backward pass: pin the base, walk out to the end.
    fn backward_pass(chain: &mut Chain, base: Vec3)
        requires
            old(chain).wf(),
            old(chain).joints@.len() >= 2,
            base@.bounded(MAX_ANCHOR as int),
        ensures
            final(chain).wf(),
            final(chain).joints@.len() == old(chain).joints@.len(),
            final(chain).bone_lengths@ == old(chain).bone_lengths@,
            final(chain).tolerance == old(chain).tolerance,
            final(chain).max_iterations == old(chain).max_iterations,
            forall|i: int|
                0 <= i < old(chain).joints@.len() ==> final(chain).joints@[i].constraint
                    == #[trigger] old(chain).joints@[i].constraint,
            final(chain).pos_seq() == spec_backward_upto(
                old(chain).pos_seq(), old(chain).bones(), base@,
                old(chain).joints@.len() - 1),
            final(chain).pos_seq()[0] == base@,
            final(chain).pos_seq()[0].bounded(MAX_ANCHOR as int),
    {
        let n = chain.joints.len();
        let ghost js0 = chain.pos_seq();
        let ghost bones = chain.bones();
        let ghost bv = base@;
        let c0 = chain.joints[0].constraint;
        chain.joints.set(0, Joint { position: base, constraint: c0 });
        proof {
            assert(chain.pos_seq() =~= spec_backward_upto(js0, bones, bv, 0));
            assert(bones.take(0) =~= Seq::<int>::empty());
        }
        let mut k: usize = 1;
        while k < n
            invariant
                chain.wf(),
                n == chain.joints@.len(),
                n == old(chain).joints@.len(),
                2 <= n,
                1 <= k <= n,
                bones == chain.bones(),
                js0 == old(chain).pos_seq(),
                bv == base@,
                bv.bounded(MAX_ANCHOR as int),
                chain.bone_lengths@ == old(chain).bone_lengths@,
                chain.tolerance == old(chain).tolerance,
                chain.max_iterations == old(chain).max_iterations,
                forall|i: int|
                    0 <= i < n ==> chain.joints@[i].constraint == #[trigger] old(
                        chain).joints@[i].constraint,
                chain.pos_seq() == spec_backward_upto(js0, bones, bv, k as int - 1),
                chain.pos_seq()[0] == bv,
                forall|i: int|
                    0 <= i < k ==> (#[trigger] chain.pos_seq()[i]).bounded(
                        MAX_ANCHOR + spec_total(bones.take(i))),
            decreases n - k,
        {
            proof {
                lemma_total_take_step(bones, k as int - 1);
                lemma_total_prefix_le(bones, k as int);
                lemma_total_nonneg(bones.take(k as int - 1));
                lemma_elem_le_total(bones, k as int - 1);
                assert(chain.pos_seq()[k as int] == chain.joints@[k as int].position@);
                assert(chain.pos_seq()[k as int - 1] == chain.joints@[k as int - 1].position@);
                assert(bones[k as int - 1] == chain.bone_lengths@[k as int - 1] as int);
                assert(chain.pos_seq()[k as int - 1].bounded(
                    MAX_ANCHOR + spec_total(bones.take(k as int - 1))));
                assert(MAX_ANCHOR + spec_total(bones.take(k as int - 1)) <= MAX_POS);
            }
            let predecessor = chain.joints[k - 1].position;
            let current = chain.joints[k].position;
            let len = chain.bone_lengths[k - 1];
            let placed = offset_from(predecessor, current, len);
            let c = chain.joints[k].constraint;
            chain.joints.set(k, Joint { position: placed, constraint: c });
            proof {
                assert(chain.pos_seq() =~= spec_backward_upto(js0, bones, bv, k as int - 1)
                    .update(k as int, placed@));
                assert(chain.pos_seq() =~= spec_backward_upto(js0, bones, bv, k as int));
            }
            k = k + 1;
        }
    }

    /// Stretch the chain straight at an unreachable target: each joint
    /// on the base-to-target ray at its cumulative bone-length offset.
    #[verifier::rlimit(80)]
    fn stretch_towards_target(chain: &mut Chain, base: Vec3, target: Vec3)
        requires
            old(chain).wf(),
            old(chain).joints@.len() >= 2,
            base@.bounded(MAX_ANCHOR as int),
            target@.bounded(MAX_ANCHOR as int),
        ensures
            final(chain).wf(),
            final(chain).joints@.len() == old(chain).joints@.len(),
            final(chain).bone_lengths@ == old(chain).bone_lengths@,
            final(chain).tolerance == old(chain).tolerance,
            final(chain).max_iterations == old(chain).max_iterations,
            forall|i: int|
                0 <= i < old(chain).joints@.len() ==> final(chain).joints@[i].constraint
                    == #[trigger] old(chain).joints@[i].constraint,
            final(chain).pos_seq() == spec_stretch(
                old(chain).pos_seq(), old(chain).bones(), base@, target@),
            final(chain).pos_seq()[0] == base@,
            final(chain).pos_seq()[0].bounded(MAX_ANCHOR as int),
    {
        let n = chain.joints.len();
        let ghost js0 = chain.pos_seq();
        let ghost bones = chain.bones();
        let c0 = chain.joints[0].constraint;
        chain.joints.set(0, Joint { position: base, constraint: c0 });
        let ghost target_v = target@;
        let ghost base_v = base@;
        let mut cum: i64 = 0;
        let mut k: usize = 1;
        proof {
            assert(bones.take(0) =~= Seq::<int>::empty());
            assert(chain.pos_seq() =~= js0.update(0, base_v));
        }
        while k < n
            invariant
                chain.wf(),
                n == chain.joints@.len(),
                n == old(chain).joints@.len(),
                2 <= n,
                1 <= k <= n,
                bones == chain.bones(),
                js0 == old(chain).pos_seq(),
                base_v == base@,
                target_v == target@,
                base_v.bounded(MAX_ANCHOR as int),
                target_v.bounded(MAX_ANCHOR as int),
                chain.bone_lengths@ == old(chain).bone_lengths@,
                chain.tolerance == old(chain).tolerance,
                chain.max_iterations == old(chain).max_iterations,
                forall|i: int|
                    0 <= i < n ==> chain.joints@[i].constraint == #[trigger] old(
                        chain).joints@[i].constraint,
                cum == spec_total(bones.take(k as int - 1)),
                0 <= cum <= MAX_REACH,
                chain.pos_seq()[0] == base_v,
                forall|i: int|
                    1 <= i < k ==> #[trigger] chain.pos_seq()[i] == spec_offset_from(
                        base_v, target_v, spec_total(bones.take(i))),
                forall|i: int| k <= i < n ==> #[trigger] chain.pos_seq()[i] == js0[i],
            decreases n - k,
        {
            proof {
                lemma_total_take_step(bones, k as int - 1);
                lemma_total_prefix_le(bones, k as int);
                lemma_total_nonneg(bones.take(k as int - 1));
                lemma_elem_le_total(bones, k as int - 1);
                assert(bones[k as int - 1] == chain.bone_lengths@[k as int - 1] as int);
            }
            let step = chain.bone_lengths[k - 1];
            cum = cum + step;
            let ghost prev_ps = chain.pos_seq();
            let placed = offset_from(base, target, cum);
            let c = chain.joints[k].constraint;
            chain.joints.set(k, Joint { position: placed, constraint: c });
            proof {
                assert(placed@.bounded(MAX_POS as int));
                assert(chain.pos_seq() =~= prev_ps.update(k as int, placed@));
            }
            k = k + 1;
        }
        proof {
            assert(chain.pos_seq() =~= spec_stretch(js0, bones, base_v, target_v));
        }
    }
}

impl FabrikSolver {
    /// Solve toward `target` among obstacles, anchored at the chain's
    /// own first joint.
    pub fn solve_with_collision(
        chain: &mut Chain,
        target: Vec3,
        world: &ObstacleWorld,
        config: &CollisionConfig,
    ) -> (r: SolveResult)
        requires
            old(chain).wf(),
            world.wf(),
            config.wf(),
            target@.bounded(MAX_ANCHOR as int),
            old(chain).joints@.len() > 0 ==> old(chain).pos_seq()[0].bounded(MAX_ANCHOR as int),
        ensures
            final(chain).wf(),
            old(chain).joints@.len() == 0 ==> final(chain).joints@ == old(chain).joints@
                && r == (SolveResult { converged: true, iterations: 0, final_distance: 0 }),
            old(chain).joints@.len() > 0 ==> spec_solve_collision_post(
                *old(chain), *final(chain), target@, old(chain).pos_seq()[0],
                world.obstacles@, *config, r),
            final(chain).joints@.len() > 0 ==> final(chain).pos_seq()[0].bounded(
                MAX_ANCHOR as int),
    {
        if chain.joints.len() == 0 {
            return SolveResult { converged: true, iterations: 0, final_distance: 0 };
        }
        let base = chain.joints[0].position;
        proof {
            assert(base@ == chain.pos_seq()[0]);
        }
        Self::solve_anchored_with_collision(chain, target, base, world, config)
    }

    /// Solve toward `target` among obstacles, anchored at an explicit
    /// `base`.
    ///
    /// Each round is a FABRIK round followed by the collision
    /// resolution, a re-pin of the base and a forward re-walk of the
    /// bone lengths; an unreachable target is stretched at and then
    /// resolved once.
    pub fn solve_anchored_with_collision(
        chain: &mut Chain,
        target: Vec3,
        base: Vec3,
        world: &ObstacleWorld,
        config: &CollisionConfig,
    ) -> (r: SolveResult)
        requires
            old(chain).wf(),
            world.wf(),
            config.wf(),
            target@.bounded(MAX_ANCHOR as int),
            base@.bounded(MAX_ANCHOR as int),
        ensures
            final(chain).wf(),
            spec_solve_collision_post(
                *old(chain), *final(chain), target@, base@, world.obstacles@, *config, r),
            final(chain).joints@.len() >= 2 ==> (final(chain).pos_seq()[0].bounded(
                MAX_ANCHOR as int) || final(chain).pos_seq()[0] == old(chain).pos_seq()[0]),
    {
        let n = chain.joints.len();
        if n < 2 {
            proof {
                if n == 1 {
                    assert(chain.pos_seq() =~= old(chain).pos_seq());
                }
            }
            return SolveResult { converged: true, iterations: 0, final_distance: 0 };
        }
        let ghost js0 = chain.pos_seq();
        let ghost bones = chain.bones();
        let ghost obs = world.obstacles@;
        let total = chain.total_length();
        let d = dist(base, target);
        if d > total {
            Self::stretch_towards_target(chain, base, target);
            CollisionResponse::resolve_chain(chain, world, config);
            return SolveResult { converged: false, iterations: 1, final_distance: d - total };
        }
        let tolerance = chain.tolerance;
        let max_iterations = chain.max_iterations;
        let ghost tol = tolerance as int;
        let ghost m = config.margin as int;
        let ghost pres = config.preserve_bone_lengths;
        let ghost citers = config.max_iterations as int;
        let mut iteration: u32 = 0;
        while iteration < max_iterations
            invariant
                chain.wf(),
                world.wf(),
                config.wf(),
                n == chain.joints@.len(),
                n == old(chain).joints@.len(),
                2 <= n,
                0 <= iteration <= max_iterations,
                max_iterations == old(chain).max_iterations,
                tolerance == old(chain).tolerance,
                tol == tolerance as int,
                m == config.margin as int,
                pres == config.preserve_bone_lengths,
                citers == config.max_iterations as int,
                obs == world.obstacles@,
                bones == chain.bones(),
                js0 == old(chain).pos_seq(),
                target@.bounded(MAX_ANCHOR as int),
                base@.bounded(MAX_ANCHOR as int),
                chain.bone_lengths@ == old(chain).bone_lengths@,
                chain.tolerance == old(chain).tolerance,
                chain.max_iterations == old(chain).max_iterations,
                forall|i: int|
                    0 <= i < n ==> chain.joints@[i].constraint == #[trigger] old(
                        chain).joints@[i].constraint,
                spec_dist(base@, target@) <= spec_total(bones),
                iteration == 0 ==> chain.pos_seq() == js0,
                iteration > 0 ==> chain.pos_seq()[0] == base@,
                spec_solve_collision_loop(js0, bones, target@, base@, tol, obs, m, pres,
                    citers, max_iterations as int).0 == spec_solve_collision_loop(
                    chain.pos_seq(), bones, target@, base@, tol, obs, m, pres, citers,
                    max_iterations - iteration).0,
                spec_solve_collision_loop(js0, bones, target@, base@, tol, obs, m, pres,
                    citers, max_iterations as int).1 == iteration + spec_solve_collision_loop(
                    chain.pos_seq(), bones, target@, base@, tol, obs, m, pres, citers,
                    max_iterations - iteration).1,
            decreases max_iterations - iteration,
        {
            let ghost entry = chain.pos_seq();
            let ghost joints_entry = chain.joints@;
            Self::forward_pass(chain, target);
            Self::backward_pass(chain, base);
            let ghost joints_a = chain.joints@;
            proof {
                assert(chain.pos_seq() == spec_fabrik_round(entry, bones, target@, base@));
            }
            CollisionResponse::resolve_chain(chain, world, config);
            let ghost resolved = chain.pos_seq();
            let ghost joints_b = chain.joints@;
            proof {
                if obs.len() == 0 {
                    assert(resolved == spec_fabrik_round(entry, bones, target@, base@));
                }
            }
            let c0 = chain.joints[0].constraint;
            chain.joints.set(0, Joint { position: base, constraint: c0 });
            let ghost joints_c = chain.joints@;
            proof {
                assert(chain.pos_seq() =~= resolved.update(0, base@));
            }
            CollisionResponse::fix_bone_lengths(chain);
            proof {
                assert forall|i: int|
                    0 <= i < n implies #[trigger] chain.joints@[i].constraint
                        == old(chain).joints@[i].constraint by {
                    assert(joints_a[i].constraint == joints_entry[i].constraint);
                    assert(joints_b[i].constraint == joints_a[i].constraint);
                    assert(joints_c[i].constraint == joints_b[i].constraint);
                    assert(chain.joints@[i].constraint == joints_c[i].constraint);
                }
            }
            let end = chain.joints[n - 1].position;
            proof {
                assert(chain.pos_seq().last() == end@);
            }
            let distance = dist(end, target);
            if distance <= tolerance {
                proof {
                    let rem = max_iterations - iteration;
                    assert(spec_solve_collision_loop(entry, bones, target@, base@, tol, obs, m,
                        pres, citers, rem as int) == (chain.pos_seq(), 1int));
                }
                return SolveResult {
                    converged: true,
                    iterations: iteration + 1,
                    final_distance: distance,
                };
            }
            proof {
                let rem = max_iterations - iteration;
                assert(spec_solve_collision_loop(entry, bones, target@, base@, tol, obs, m,
                    pres, citers, rem as int).0 == spec_solve_collision_loop(chain.pos_seq(),
                    bones, target@, base@, tol, obs, m, pres, citers, rem - 1).0);
                assert(spec_solve_collision_loop(entry, bones, target@, base@, tol, obs, m,
                    pres, citers, rem as int).1 == 1 + spec_solve_collision_loop(
                    chain.pos_seq(), bones, target@, base@, tol, obs, m, pres, citers,
                    rem - 1).1);
            }
            iteration = iteration + 1;
        }
        let end = chain.joints[n - 1].position;
        proof {
            assert(chain.pos_seq().last() == end@);
        }
        let final_distance = dist(end, target);
        SolveResult {
            converged: final_distance <= tolerance,
            iterations: max_iterations,
            final_distance,
        }
    }
}

/// Unreachable stretch, spelled out: the stretched chain starts
/// exactly at the base and puts every further joint on the base-to-
/// target ray (straight up when the direction is degenerate) at its
/// cumulative bone-length offset, never nearer the base than that
/// offset.
pub proof fn lemma_stretch_on_ray(js: Seq<V3>, bones: Seq<int>, base: V3, target: V3)
    requires
        js.len() >= 2,
        bones.len() + 1 == js.len(),
        forall|i: int| 0 <= i < bones.len() ==> 0 <= #[trigger] bones[i],
    ensures
        spec_stretch(js, bones, base, target).len() == js.len(),
        spec_stretch(js, bones, base, target)[0] == base,
        forall|i: int|
            1 <= i < js.len() ==> #[trigger] spec_stretch(js, bones, base, target)[i]
                == spec_offset_from(base, target, spec_total(bones.take(i))),
        forall|i: int|
            1 <= i < js.len() ==> spec_dist_sq(
                #[trigger] spec_stretch(js, bones, base, target)[i], base) >= sq(
                spec_total(bones.take(i))),
{
    let s = spec_stretch(js, bones, base, target);
    assert forall|i: int| 1 <= i < js.len() implies spec_dist_sq(
        #[trigger] s[i], base) >= sq(spec_total(bones.take(i))) by {
        let cum = spec_total(bones.take(i));
        lemma_total_prefix_le(bones, i);
        lemma_total_nonneg(bones.take(i));
        crate::vec3::lemma_offset_from_props(base, target, cum);
        assert(sq(cum) == cum * cum);
    }
}

/// The forward pass keeps the number of joints.
pub proof fn lemma_forward_len(js: Seq<V3>, bones: Seq<int>, target: V3, k: int)
    requires
        1 <= js.len(),
        0 <= k,
    ensures
        spec_forward_upto(js, bones, target, k).len() == js.len(),
    decreases js.len() - k,
{
    if k < js.len() - 1 {
        lemma_forward_len(js, bones, target, k + 1);
    }
}

/// The backward pass keeps the number of joints.
pub proof fn lemma_backward_len(js: Seq<V3>, bones: Seq<int>, base: V3, k: int)
    requires
        1 <= js.len(),
        k < js.len(),
    ensures
        spec_backward_upto(js, bones, base, k).len() == js.len(),
    decreases k,
{
    if k > 0 {
        lemma_backward_len(js, bones, base, k - 1);
    }
}

/// Bone-length invariance, from below, for the backward pass: every
/// bone it places comes out at least its frozen length.
pub proof fn lemma_backward_bones_lower(js: Seq<V3>, bones: Seq<int>, base: V3, k: int)
    requires
        0 <= k <= bones.len(),
        bones.len() + 1 == js.len(),
        forall|i: int| 0 <= i < bones.len() ==> 0 <= #[trigger] bones[i],
    ensures
        forall|j: int|
            1 <= j <= k ==> spec_dist_sq(
                #[trigger] spec_backward_upto(js, bones, base, k)[j],
                spec_backward_upto(js, bones, base, k)[j - 1],
            ) >= sq(bones[j - 1]),
    decreases k,
{
    if k > 0 {
        lemma_backward_bones_lower(js, bones, base, k - 1);
        lemma_backward_len(js, bones, base, k - 1);
        let prev = spec_backward_upto(js, bones, base, k - 1);
        let s = spec_backward_upto(js, bones, base, k);
        crate::vec3::lemma_offset_from_props(prev[k - 1], prev[k], bones[k - 1]);
        assert(s[k] == spec_offset_from(prev[k - 1], prev[k], bones[k - 1]));
        assert(s[k - 1] == prev[k - 1]);
        assert forall|j: int| 1 <= j <= k implies spec_dist_sq(
            #[trigger] s[j], s[j - 1]) >= sq(bones[j - 1]) by {
            if j < k {
                assert(s[j] == prev[j]);
                assert(s[j - 1] == prev[j - 1]);
            } else {
                assert(sq(bones[k - 1]) == bones[k - 1] * bones[k - 1]);
            }
        }
    }
}

/// Bone-length invariance, from above, for the backward pass: whenever
/// each placing stride spans its bone and is non-degenerate, every
/// placed bone comes out at most three micro-units over its frozen
/// length.  Together with the lower bound this pins each such bone's
/// length into `[bones[j-1], bones[j-1] + 3]` — far inside the
/// milli-unit tolerance.  The stride hypotheses cannot be dropped: a
/// stride shorter than the bone magnifies the rounding, and a
/// degenerate one is replaced by the vertical fallback.
pub proof fn lemma_backward_bones_upper(js: Seq<V3>, bones: Seq<int>, base: V3, k: int)
    requires
        0 <= k <= bones.len(),
        bones.len() + 1 == js.len(),
        forall|i: int| 0 <= i < bones.len() ==> 0 <= #[trigger] bones[i],
        forall|i: int|
            1 <= i <= k ==> spec_dist_sq(
                #[trigger] spec_backward_upto(js, bones, base, i - 1)[i - 1],
                spec_backward_upto(js, bones, base, i - 1)[i],
            ) >= sq(bones[i - 1]) && spec_dist_sq(
                spec_backward_upto(js, bones, base, i - 1)[i - 1],
                spec_backward_upto(js, bones, base, i - 1)[i],
            ) > DEGEN_EPS_SQ,
    ensures
        forall|j: int|
            1 <= j <= k ==> spec_dist_sq(
                #[trigger] spec_backward_upto(js, bones, base, k)[j],
                spec_backward_upto(js, bones, base, k)[j - 1],
            ) <= sq(bones[j - 1] + 3),
    decreases k,
{
    if k > 0 {
        lemma_backward_bones_upper(js, bones, base, k - 1);
        lemma_backward_len(js, bones, base, k - 1);
        let prev = spec_backward_upto(js, bones, base, k - 1);
        let s = spec_backward_upto(js, bones, base, k);
        crate::vec3::lemma_offset_len_upper(prev[k - 1], prev[k], bones[k - 1]);
        assert(s[k] == spec_offset_from(prev[k - 1], prev[k], bones[k - 1]));
        assert(s[k - 1] == prev[k - 1]);
        assert(spec_dist_sq(s[k], s[k - 1]) <= sq(bones[k - 1] + 3)) by {
            lemma_dist_sq_symmetric(s[k], s[k - 1]);
        }
        assert forall|j: int| 1 <= j <= k implies spec_dist_sq(
            #[trigger] s[j], s[j - 1]) <= sq(bones[j - 1] + 3) by {
            if j < k {
                assert(s[j] == prev[j]);
                assert(s[j - 1] == prev[j - 1]);
            }
        }
    }
}

/// Squared distance does not depend on the order of its endpoints.
proof fn lemma_dist_sq_symmetric(a: V3, b: V3)
    ensures
        spec_dist_sq(a, b) == spec_dist_sq(b, a),
{
    assert((a.x - b.x) * (a.x - b.x) == (b.x - a.x) * (b.x - a.x)) by (nonlinear_arith);
    assert((a.y - b.y) * (a.y - b.y) == (b.y - a.y) * (b.y - a.y)) by (nonlinear_arith);
    assert((a.z - b.z) * (a.z - b.z) == (b.z - a.z) * (b.z - a.z)) by (nonlinear_arith);
}

/// Bone-length invariance, from below, for one full FABRIK round.
pub proof fn lemma_round_bones_lower(js: Seq<V3>, bones: Seq<int>, target: V3, base: V3)
    requires
        js.len() >= 2,
        bones.len() + 1 == js.len(),
        forall|i: int| 0 <= i < bones.len() ==> 0 <= #[trigger] bones[i],
    ensures
        spec_fabrik_round(js, bones, target, base).len() == js.len(),
        forall|j: int|
            1 <= j < js.len() ==> spec_dist_sq(
                #[trigger] spec_fabrik_round(js, bones, target, base)[j],
                spec_fabrik_round(js, bones, target, base)[j - 1],
            ) >= sq(bones[j - 1]),
{
    let fwd = spec_forward_upto(js, bones, target, 0);
    lemma_forward_len(js, bones, target, 0);
    lemma_backward_len(fwd, bones, base, js.len() - 1);
    lemma_backward_bones_lower(fwd, bones, base, js.len() - 1);
}

/// Bone-length invariance, from below, after a plain solve with at
/// least one round: no bone of the solved chain is shorter than its
/// frozen length.  (The matching upper bound is `lemma_offset_len_upper`
/// in the vector module: a placed bone exceeds its frozen length by at
/// most three micro-units whenever the placing stride spans it.)
pub proof fn lemma_solve_loop_bones_lower(
    js: Seq<V3>,
    bones: Seq<int>,
    target: V3,
    base: V3,
    tol: int,
    fuel: int,
)
    requires
        1 <= fuel,
        js.len() >= 2,
        bones.len() + 1 == js.len(),
        forall|i: int| 0 <= i < bones.len() ==> 0 <= #[trigger] bones[i],
    ensures
        spec_solve_loop(js, bones, target, base, tol, fuel).0.len() == js.len(),
        forall|j: int|
            1 <= j < js.len() ==> spec_dist_sq(
                #[trigger] spec_solve_loop(js, bones, target, base, tol, fuel).0[j],
                spec_solve_loop(js, bones, target, base, tol, fuel).0[j - 1],
            ) >= sq(bones[j - 1]),
    decreases fuel,
{
    let next = spec_fabrik_round(js, bones, target, base);
    lemma_round_bones_lower(js, bones, target, base);
    let result = spec_solve_loop(js, bones, target, base, tol, fuel).0;
    if spec_dist(next.last(), target) <= tol {
        assert(result == next);
    } else {
        if fuel - 1 >= 1 {
            lemma_solve_loop_bones_lower(next, bones, target, base, tol, fuel - 1);
            assert(result == spec_solve_loop(next, bones, target, base, tol, fuel - 1).0);
        } else {
            assert(spec_solve_loop(next, bones, target, base, tol, 0) == (next, 0int));
            assert(result == next);
        }
    }
    assert forall|j: int| 1 <= j < js.len() implies spec_dist_sq(
        #[trigger] result[j], result[j - 1]) >= sq(bones[j - 1]) by {
        if spec_dist(next.last(), target) <= tol || fuel - 1 < 1 {
            assert(spec_dist_sq(next[j], next[j - 1]) >= sq(bones[j - 1]));
        } else {
            let deep = spec_solve_loop(next, bones, target, base, tol, fuel - 1).0;
            assert(spec_dist_sq(deep[j], deep[j - 1]) >= sq(bones[j - 1]));
        }
    }
}

/// Bone-length invariance, from below, after a collision-aware solve
/// with at least one round and bone preservation on: the closing
/// forward re-walk leaves no bone shorter than its frozen length.
#[verifier::rlimit(100)]
pub proof fn lemma_collision_loop_bones_lower(
    js: Seq<V3>,
    bones: Seq<int>,
    target: V3,
    base: V3,
    tol: int,
    obs: Seq<Obstacle>,
    margin: int,
    preserve: bool,
    citers: int,
    fuel: int,
)
    requires
        1 <= fuel,
        js.len() >= 2,
        bones.len() + 1 == js.len(),
        forall|i: int| 0 <= i < bones.len() ==> 0 <= #[trigger] bones[i],
    ensures
        spec_solve_collision_loop(
            js, bones, target, base, tol, obs, margin, preserve, citers, fuel).0.len()
            == js.len(),
        forall|j: int|
            1 <= j < js.len() ==> spec_dist_sq(
                #[trigger] spec_solve_collision_loop(
                    js, bones, target, base, tol, obs, margin, preserve, citers, fuel).0[j],
                spec_solve_collision_loop(
                    js, bones, target, base, tol, obs, margin, preserve, citers, fuel).0[j - 1],
            ) >= sq(bones[j - 1]),
    decreases fuel,
{
    let rounded = spec_fabrik_round(js, bones, target, base);
    lemma_round_bones_lower(js, bones, target, base);
    let resolved = if obs.len() > 0 {
        spec_resolve(obs, rounded, bones, margin, preserve, citers)
    } else {
        rounded
    };
    crate::response::lemma_resolve_len(obs, rounded, bones, margin, preserve, citers);
    let pinned = resolved.update(0, base);
    crate::response::lemma_fix_bones_len(pinned, bones, js.len() as int);
    crate::response::lemma_fix_bones_lower(pinned, bones, js.len() as int);
    let next = spec_fix_bones(pinned, bones, js.len() as int);
    let result = spec_solve_collision_loop(
        js, bones, target, base, tol, obs, margin, preserve, citers, fuel).0;
    if spec_dist(next.last(), target) <= tol {
        assert(result == next);
    } else {
        if fuel - 1 >= 1 {
            lemma_collision_loop_bones_lower(
                next, bones, target, base, tol, obs, margin, preserve, citers, fuel - 1);
            assert(result == spec_solve_collision_loop(
                next, bones, target, base, tol, obs, margin, preserve, citers, fuel - 1).0);
        } else {
            assert(spec_solve_collision_loop(
                next, bones, target, base, tol, obs, margin, preserve, citers, 0) == (next, 0int));
            assert(result == next);
        }
    }
    assert forall|j: int| 1 <= j < js.len() implies spec_dist_sq(
        #[trigger] result[j], result[j - 1]) >= sq(bones[j - 1]) by {
        if spec_dist(next.last(), target) <= tol || fuel - 1 < 1 {
            assert(spec_dist_sq(next[j], next[j - 1]) >= sq(bones[j - 1]));
        } else {
            let deep = spec_solve_collision_loop(
                next, bones, target, base, tol, obs, margin, preserve, citers, fuel - 1).0;
            assert(spec_dist_sq(deep[j], deep[j - 1]) >= sq(bones[j - 1]));
        }
    }
}

/// What `solve_anchored_with_collision` promises.
pub open spec fn spec_solve_collision_post(
    pre: Chain,
    post: Chain,
    target: V3,
    base: V3,
    obs: Seq<Obstacle>,
    config: CollisionConfig,
    r: SolveResult,
) -> bool {
    let n = pre.joints@.len() as int;
    let bones = pre.bones();
    let total = spec_total(bones);
    let d = spec_dist(base, target);
    let m = config.margin as int;
    let pres = config.preserve_bone_lengths;
    let citers = config.max_iterations as int;
    &&& post.joints@.len() == n
    &&& post.bone_lengths@ == pre.bone_lengths@
    &&& post.tolerance == pre.tolerance
    &&& post.max_iterations == pre.max_iterations
    &&& forall|i: int|
            0 <= i < n ==> post.joints@[i].constraint == #[trigger] pre.joints@[i].constraint
    &&& if n < 2 {
        &&& post.joints@ == pre.joints@
        &&& r == (SolveResult { converged: true, iterations: 0, final_distance: 0 })
    } else if d > total {
        let stretched = spec_stretch(pre.pos_seq(), bones, base, target);
        &&& post.pos_seq() == (if obs.len() > 0 {
            spec_resolve(obs, stretched, bones, m, pres, citers)
        } else {
            stretched
        })
        &&& r.converged == false
        &&& r.iterations == 1
        &&& r.final_distance == d - total
    } else {
        let outcome = spec_solve_collision_loop(
            pre.pos_seq(), bones, target, base, pre.tolerance as int, obs, m, pres, citers,
            pre.max_iterations as int);
        &&& post.pos_seq() == outcome.0
        &&& r.iterations == outcome.1
        &&& r.final_distance == spec_dist(post.pos_seq().last(), target)
        &&& r.converged == (r.final_distance <= pre.tolerance)
    }
}

/// What `solve_anchored` promises, as a relation between the chain
/// before and after, the target and base, and the report.
pub open spec fn spec_solve_anchored_post(
    pre: Chain,
    post: Chain,
    target: V3,
    base: V3,
    r: SolveResult,
) -> bool {
    let n = pre.joints@.len() as int;
    let bones = pre.bones();
    let total = spec_total(bones);
    let d = spec_dist(base, target);
    &&& post.joints@.len() == n
    &&& post.bone_lengths@ == pre.bone_lengths@
    &&& post.tolerance == pre.tolerance
    &&& post.max_iterations == pre.max_iterations
    &&& forall|i: int|
            0 <= i < n ==> post.joints@[i].constraint == #[trigger] pre.joints@[i].constraint
    &&& if n < 2 {
        &&& post.joints@ == pre.joints@
        &&& r == (SolveResult { converged: true, iterations: 0, final_distance: 0 })
    } else if d > total {
        &&& post.pos_seq() == spec_stretch(pre.pos_seq(), bones, base, target)
        &&& r.converged == false
        &&& r.iterations == 1
        &&& r.final_distance == d - total
    } else {
        let outcome = spec_solve_loop(
            pre.pos_seq(), bones, target, base, pre.tolerance as int,
            pre.max_iterations as int);
        &&& post.pos_seq() == outcome.0
        &&& r.iterations == outcome.1
        &&& r.final_distance == spec_dist(post.pos_seq().last(), target)
        &&& r.converged == (r.final_distance <= pre.tolerance)
    }
}

} // verus!
