//! The articulated chain: ordered joints, frozen bone lengths, and the
//! solver's tolerance and iteration budget.
//!
//! A chain is built once through `ChainBuilder`: joints are added in
//! order, and `build` measures and freezes the distance between each
//! consecutive pair as that bone's length.  Afterwards joints are only
//! repositioned, never added or removed, and the bone lengths never
//! change.

use vstd::prelude::*;
use crate::vec3::Vec3;
use crate::vec3::V3;
use crate::vec3::dist;
use crate::vec3::spec_dist;
use crate::joint::Joint;
use crate::constraint::Constraint;
use crate::fixed::MAX_ANCHOR;
use crate::fixed::MAX_POS;
use crate::fixed::MAX_REACH;

verus! {

/// Sum of a sequence of integers.
pub open spec fn spec_total(s: Seq<int>) -> int
    decreases s.len(),
{
    if s.len() == 0 {
        0
    } else {
        spec_total(s.drop_last()) + s.last()
    }
}

/// A sum of non-negative entries is non-negative.
pub proof fn lemma_total_nonneg(s: Seq<int>)
    requires
        forall|i: int| 0 <= i < s.len() ==> 0 <= #[trigger] s[i],
    ensures
        0 <= spec_total(s),
    decreases s.len(),
{
    if s.len() > 0 {
        lemma_total_nonneg(s.drop_last());
    }
}

/// Extending a prefix by one entry adds that entry to its sum.
pub proof fn lemma_total_take_step(s: Seq<int>, i: int)
    requires
        0 <= i < s.len(),
    ensures
        spec_total(s.take(i + 1)) == spec_total(s.take(i)) + s[i],
{
    assert(s.take(i + 1).drop_last() =~= s.take(i));
    assert(s.take(i + 1).last() == s[i]);
}

/// For non-negative entries, every prefix sum is at most the full sum.
pub proof fn lemma_total_prefix_le(s: Seq<int>, i: int)
    requires
        forall|j: int| 0 <= j < s.len() ==> 0 <= #[trigger] s[j],
        0 <= i <= s.len(),
    ensures
        spec_total(s.take(i)) <= spec_total(s),
    decreases s.len() - i,
{
    if i == s.len() {
        assert(s.take(i) =~= s);
    } else {
        lemma_total_take_step(s, i);
        lemma_total_prefix_le(s, i + 1);
    }
}

/// For non-negative entries, each entry is at most the full sum.
pub proof fn lemma_elem_le_total(s: Seq<int>, i: int)
    requires
        forall|j: int| 0 <= j < s.len() ==> 0 <= #[trigger] s[j],
        0 <= i < s.len(),
    ensures
        0 <= s[i] <= spec_total(s),
{
    lemma_total_take_step(s, i);
    lemma_total_prefix_le(s, i + 1);
    lemma_total_nonneg(s.take(i));
}

/// The bone lengths a sequence of joint positions induces: the rounded
/// distance between each consecutive pair.
pub open spec fn spec_bone_seq(ps: Seq<V3>) -> Seq<int> {
    if ps.len() == 0 {
        Seq::empty()
    } else {
        Seq::new((ps.len() - 1) as nat, |i: int| spec_dist(ps[i], ps[i + 1]))
    }
}

/// An articulated chain the solver mutates in place.
#[derive(Clone, Debug)]
pub struct Chain {
    /// The ordered joints; only their positions change after build.
    pub joints: Vec<Joint>,
    /// Frozen bone lengths, one per consecutive joint pair.
    pub bone_lengths: Vec<i64>,
    /// Convergence threshold on the end-effector distance, micro-units.
    pub tolerance: i64,
    /// Iteration budget for one solve call.
    pub max_iterations: u32,
}

impl Chain {
    /// The joint positions as a mathematical sequence.
    pub open spec fn pos_seq(self) -> Seq<V3> {
        self.joints@.map(|i: int, j: Joint| j.position@)
    }

    /// The bone lengths as a mathematical sequence.
    pub open spec fn bones(self) -> Seq<int> {
        self.bone_lengths@.map(|i: int, b: i64| b as int)
    }

    /// Structural well-formedness: one bone per consecutive joint pair,
    /// non-negative bone lengths whose sum stays within `MAX_REACH`,
    /// all positions within `MAX_POS`, a non-negative tolerance, and
    /// well-formed joint constraints.
    pub open spec fn wf(self) -> bool {
        &&& (if self.joints@.len() == 0 {
                self.bone_lengths@.len() == 0
            } else {
                self.bone_lengths@.len() + 1 == self.joints@.len()
            })
        &&& forall|i: int| 0 <= i < self.bones().len() ==> 0 <= #[trigger] self.bones()[i]
        &&& spec_total(self.bones()) <= MAX_REACH
        &&& forall|i: int|
                0 <= i < self.pos_seq().len() ==> (#[trigger] self.pos_seq()[i]).bounded(
                    MAX_POS as int)
        &&& forall|i: int|
                0 <= i < self.joints@.len() ==> ((#[trigger] self.joints@[i].constraint) matches
                    Some(c) ==> c.wf())
        &&& 0 <= self.tolerance
    }

    /// Start building a chain.
    pub fn builder() -> (r: ChainBuilder)
        ensures
            r.joints@.len() == 0,
            r.tolerance == 1000,
            r.max_iterations == 10,
    {
        ChainBuilder::new()
    }

    /// The joints in order.
    pub fn joints(&self) -> (r: &Vec<Joint>)
        ensures
            r@ == self.joints@,
    {
        &self.joints
    }

    /// The frozen bone lengths.
    pub fn bone_lengths(&self) -> (r: &Vec<i64>)
        ensures
            r@ == self.bone_lengths@,
    {
        &self.bone_lengths
    }

    /// Sum of all bone lengths.
    pub fn total_length(&self) -> (r: i64)
        requires
            forall|i: int| 0 <= i < self.bones().len() ==> 0 <= #[trigger] self.bones()[i],
            spec_total(self.bones()) <= i64::MAX,
        ensures
            r == spec_total(self.bones()),
            0 <= r,
    {
        let mut sum: i64 = 0;
        let mut i: usize = 0;
        let ghost bs = self.bones();
        proof {
            assert(bs.take(0) =~= Seq::<int>::empty());
        }
        while i < self.bone_lengths.len()
            invariant
                0 <= i <= self.bone_lengths.len(),
                bs == self.bones(),
                bs.len() == self.bone_lengths@.len(),
                forall|j: int| 0 <= j < bs.len() ==> 0 <= #[trigger] bs[j],
                spec_total(bs) <= i64::MAX,
                sum == spec_total(bs.take(i as int)),
                0 <= sum,
            decreases self.bone_lengths.len() - i,
        {
            proof {
                lemma_total_take_step(bs, i as int);
                lemma_total_prefix_le(bs, i as int + 1);
                lemma_total_nonneg(bs.take(i as int + 1));
            }
            sum = sum + self.bone_lengths[i];
            i = i + 1;
        }
        proof {
            assert(bs.take(self.bone_lengths@.len() as int) =~= bs);
        }
        sum
    }

    /// The convergence threshold.
    pub fn tolerance(&self) -> (r: i64)
        ensures
            r == self.tolerance,
    {
        self.tolerance
    }

    /// The iteration budget.
    pub fn max_iterations(&self) -> (r: u32)
        ensures
            r == self.max_iterations,
    {
        self.max_iterations
    }

    /// Number of joints.
    pub fn joint_count(&self) -> (r: usize)
        ensures
            r == self.joints@.len(),
    {
        self.joints.len()
    }

    /// Position of the last joint, if any.
    pub fn end_effector(&self) -> (r: Option<Vec3>)
        ensures
            self.joints@.len() == 0 ==> r is None,
            self.joints@.len() > 0 ==> r == Some(self.joints@.last().position),
    {
        if self.joints.len() == 0 {
            None
        } else {
            Some(self.joints[self.joints.len() - 1].position)
        }
    }

    /// Position of the first joint, if any.
    pub fn base(&self) -> (r: Option<Vec3>)
        ensures
            self.joints@.len() == 0 ==> r is None,
            self.joints@.len() > 0 ==> r == Some(self.joints@[0].position),
    {
        if self.joints.len() == 0 {
            None
        } else {
            Some(self.joints[0].position)
        }
    }

    /// All joint positions, in order, as a fresh vector.
    pub fn positions(&self) -> (r: Vec<Vec3>)
        ensures
            r@.len() == self.joints@.len(),
            forall|i: int| 0 <= i < r@.len() ==> #[trigger] r@[i] == self.joints@[i].position,
    {
        let mut out: Vec<Vec3> = Vec::new();
        let mut i: usize = 0;
        while i < self.joints.len()
            invariant
                0 <= i <= self.joints@.len(),
                out@.len() == i,
                forall|j: int| 0 <= j < i ==> #[trigger] out@[j] == self.joints@[j].position,
            decreases self.joints@.len() - i,
        {
            out.push(self.joints[i].position);
            i = i + 1;
        }
        out
    }

    /// Decide well-formedness at run time: true exactly when `wf`
    /// holds, so a caller holding an arbitrary chain can establish the
    /// solver's precondition.
    pub fn is_well_formed(&self) -> (b: bool)
        ensures
            b == self.wf(),
    {
        let n = self.joints.len();
        let nb = self.bone_lengths.len();
        if n == 0 {
            if nb != 0 {
                return false;
            }
        } else {
            if nb >= usize::MAX || nb + 1 != n {
                return false;
            }
        }
        if self.tolerance < 0 {
            return false;
        }
        let mut i: usize = 0;
        while i < nb
            invariant
                0 <= i <= nb,
                nb == self.bone_lengths@.len(),
                forall|j: int| 0 <= j < i ==> 0 <= #[trigger] self.bones()[j],
            decreases nb - i,
        {
            proof {
                assert(self.bones()[i as int] == self.bone_lengths@[i as int] as int);
            }
            if self.bone_lengths[i] < 0 {
                return false;
            }
            i = i + 1;
        }
        let mut total: i64 = 0;
        let mut k: usize = 0;
        proof {
            assert(self.bones().take(0) =~= Seq::<int>::empty());
        }
        while k < nb
            invariant
                0 <= k <= nb,
                nb == self.bone_lengths@.len(),
                forall|j: int| 0 <= j < nb ==> 0 <= #[trigger] self.bones()[j],
                total == spec_total(self.bones().take(k as int)),
                0 <= total <= MAX_REACH,
            decreases nb - k,
        {
            proof {
                lemma_total_take_step(self.bones(), k as int);
                lemma_total_nonneg(self.bones().take(k as int + 1));
                assert(self.bones()[k as int] == self.bone_lengths@[k as int] as int);
            }
            let step = self.bone_lengths[k];
            if total > MAX_REACH - step {
                proof {
                    lemma_total_prefix_le(self.bones(), k as int + 1);
                }
                return false;
            }
            total = total + step;
            k = k + 1;
        }
        proof {
            assert(self.bones().take(nb as int) =~= self.bones());
        }
        let mut p: usize = 0;
        while p < n
            invariant
                0 <= p <= n,
                n == self.joints@.len(),
                forall|j: int|
                    0 <= j < p ==> (#[trigger] self.pos_seq()[j]).bounded(MAX_POS as int),
                forall|j: int|
                    0 <= j < p ==> ((#[trigger] self.joints@[j].constraint) matches Some(c)
                        ==> c.wf()),
            decreases n - p,
        {
            let pos = self.joints[p].position;
            if pos.x > MAX_POS || pos.x < -MAX_POS || pos.y > MAX_POS || pos.y < -MAX_POS
                || pos.z > MAX_POS || pos.z < -MAX_POS {
                proof {
                    assert(self.pos_seq()[p as int] == self.joints@[p as int].position@);
                }
                return false;
            }
            match &self.joints[p].constraint {
                Some(c) => {
                    if !c.is_well_formed() {
                        return false;
                    }
                },
                None => {},
            }
            proof {
                assert(self.pos_seq()[p as int] == self.joints@[p as int].position@);
            }
            p = p + 1;
        }
        true
    }

    /// Move one joint to a new position; everything else is unchanged.
    pub fn set_joint_position(&mut self, index: usize, position: Vec3)
        requires
            index < old(self).joints@.len(),
        ensures
            final(self).joints@ == old(self).joints@.update(
                index as int,
                Joint { position, constraint: old(self).joints@[index as int].constraint },
            ),
            final(self).bone_lengths@ == old(self).bone_lengths@,
            final(self).tolerance == old(self).tolerance,
            final(self).max_iterations == old(self).max_iterations,
    {
        let constraint = self.joints[index].constraint;
        self.joints.set(index, Joint { position, constraint });
    }
}

/// Ordered construction of a chain, then a one-shot `build`.
#[derive(Clone, Debug)]
pub struct ChainBuilder {
    /// The joints added so far, in order.
    pub joints: Vec<Joint>,
    /// Convergence threshold for the built chain, micro-units.
    pub tolerance: i64,
    /// Iteration budget for the built chain.
    pub max_iterations: u32,
}

impl ChainBuilder {
    /// What every builder constructor and method preserves: anchored
    /// positions, well-formed constraints, a non-negative tolerance.
    pub open spec fn wf(self) -> bool {
        &&& forall|i: int|
                0 <= i < self.joints@.len() ==> (#[trigger] self.joints@[i].position@).bounded(
                    MAX_ANCHOR as int)
        &&& forall|i: int|
                0 <= i < self.joints@.len() ==> ((#[trigger] self.joints@[i].constraint) matches
                    Some(c) ==> c.wf())
        &&& 0 <= self.tolerance
    }

    /// An empty builder with the default tolerance (a milli-unit) and
    /// iteration budget (ten).
    pub fn new() -> (r: ChainBuilder)
        ensures
            r.joints@.len() == 0,
            r.tolerance == 1000,
            r.max_iterations == 10,
            r.wf(),
    {
        ChainBuilder { joints: Vec::new(), tolerance: 1000, max_iterations: 10 }
    }

    /// Append a free joint at `position`.
    pub fn add_joint(self, position: Vec3) -> (r: ChainBuilder)
        requires
            position@.bounded(MAX_ANCHOR as int),
        ensures
            r.joints@ == self.joints@.push(Joint { position, constraint: None }),
            r.tolerance == self.tolerance,
            r.max_iterations == self.max_iterations,
            self.wf() ==> r.wf(),
    {
        let mut joints = self.joints;
        joints.push(Joint { position, constraint: None });
        ChainBuilder { joints, tolerance: self.tolerance, max_iterations: self.max_iterations }
    }

    /// Append a joint at `position` carrying `constraint`.
    pub fn add_joint_with_constraint(self, position: Vec3, constraint: Constraint) -> (r:
        ChainBuilder)
        requires
            position@.bounded(MAX_ANCHOR as int),
            constraint.wf(),
        ensures
            r.joints@ == self.joints@.push(Joint { position, constraint: Some(constraint) }),
            r.tolerance == self.tolerance,
            r.max_iterations == self.max_iterations,
            self.wf() ==> r.wf(),
    {
        let mut joints = self.joints;
        joints.push(Joint { position, constraint: Some(constraint) });
        ChainBuilder { joints, tolerance: self.tolerance, max_iterations: self.max_iterations }
    }

    /// Set the convergence threshold, in micro-units.
    pub fn tolerance(self, tolerance: i64) -> (r: ChainBuilder)
        requires
            0 <= tolerance,
        ensures
            r.joints@ == self.joints@,
            r.tolerance == tolerance,
            r.max_iterations == self.max_iterations,
            self.wf() ==> r.wf(),
    {
        ChainBuilder { joints: self.joints, tolerance, max_iterations: self.max_iterations }
    }

    /// Set the iteration budget.
    pub fn max_iterations(self, max_iterations: u32) -> (r: ChainBuilder)
        ensures
            r.joints@ == self.joints@,
            r.tolerance == self.tolerance,
            r.max_iterations == max_iterations,
            self.wf() ==> r.wf(),
    {
        ChainBuilder { joints: self.joints, tolerance: self.tolerance, max_iterations }
    }

    /// Measure and freeze the bone lengths, yielding the chain.
    ///
    /// The joints, tolerance and iteration budget carry over unchanged;
    /// each bone length is the rounded distance between its two joints'
    /// positions at this moment.  The result is well-formed whenever
    /// the measured lengths sum to at most `MAX_REACH`.
    pub fn build(self) -> (r: Chain)
        requires
            self.wf(),
        ensures
            r.joints@ == self.joints@,
            r.tolerance == self.tolerance,
            r.max_iterations == self.max_iterations,
            r.bones() == spec_bone_seq(r.pos_seq()),
            forall|i: int| 0 <= i < r.bones().len() ==> 0 <= #[trigger] r.bones()[i],
            spec_total(r.bones()) <= MAX_REACH ==> r.wf(),
    {
        let n = self.joints.len();
        let mut bone_lengths: Vec<i64> = Vec::new();
        if n >= 2 {
            let mut i: usize = 0;
            while i < n - 1
                invariant
                    2 <= n == self.joints@.len(),
                    0 <= i <= n - 1,
                    bone_lengths@.len() == i,
                    self.wf(),
                    forall|j: int|
                        0 <= j < i ==> bone_lengths@[j] as int == spec_dist(
                            #[trigger] self.joints@[j].position@,
                            self.joints@[j + 1].position@,
                        ),
                    forall|j: int| 0 <= j < i ==> 0 <= #[trigger] bone_lengths@[j],
                decreases n - 1 - i,
            {
                let d = dist(self.joints[i].position, self.joints[i + 1].position);
                bone_lengths.push(d);
                i = i + 1;
            }
        }
        let r = Chain {
            joints: self.joints,
            bone_lengths,
            tolerance: self.tolerance,
            max_iterations: self.max_iterations,
        };
        proof {
            assert(r.bones() =~= spec_bone_seq(r.pos_seq()));
        }
        r
    }
}

impl Default for ChainBuilder {
    /// Same as `ChainBuilder::new`.
    fn default() -> (r: ChainBuilder)
        ensures
            r.joints@.len() == 0,
            r.tolerance == 1000,
            r.max_iterations == 10,
            r.wf(),
    {
        ChainBuilder::new()
    }
}

} // verus!
