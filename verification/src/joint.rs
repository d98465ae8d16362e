//! A joint of an articulated chain: a position plus an optional angular
//! constraint.  Joints are repositioned by the solver but never added or
//! removed once a chain is built.

use vstd::prelude::*;
use crate::vec3::Vec3;
use crate::vec3::spec_normalize;
use crate::constraint::Constraint;
use crate::constraint::spec_apply_constraint;
use crate::fixed::MAX_COORD;

verus! {

/// One joint: a fixed-point position and an optional direction constraint.
#[derive(Clone, Copy, Debug, PartialEq, Eq, Structural)]
pub struct Joint {
    pub position: Vec3,
    pub constraint: Option<Constraint>,
}

impl Joint {
    /// A free joint at the given position.
    pub fn new(position: Vec3) -> (r: Joint)
        ensures
            r.position == position,
            r.constraint is None,
    {
        Joint { position, constraint: None }
    }

    /// The same joint with the given constraint attached.
    pub fn with_constraint(self, constraint: Constraint) -> (r: Joint)
        ensures
            r.position == self.position,
            r.constraint == Some(constraint),
    {
        Joint { position: self.position, constraint: Some(constraint) }
    }

    /// Attach a constraint in place.
    pub fn set_constraint(&mut self, constraint: Constraint)
        ensures
            final(self).position == old(self).position,
            final(self).constraint == Some(constraint),
    {
        self.constraint = Some(constraint);
    }

    /// Remove any constraint.
    pub fn clear_constraint(&mut self)
        ensures
            final(self).position == old(self).position,
            final(self).constraint is None,
    {
        self.constraint = None;
    }

    /// Clamp a candidate direction against this joint's constraint,
    /// measured from the parent bone's `reference` direction.  A free
    /// joint just normalizes the candidate.
    pub fn apply_constraint(&self, direction: Vec3, reference: Vec3) -> (r: Vec3)
        requires
            direction@.bounded(MAX_COORD as int),
            reference@.bounded(MAX_COORD as int),
            self.constraint matches Some(c) ==> c.wf(),
        ensures
            self.constraint is None ==> r@ == spec_normalize(direction@),
            self.constraint matches Some(c) ==> r@ == spec_apply_constraint(c, direction@, reference@),
            r@.bounded(9_000_000int),
    {
        match &self.constraint {
            Some(c) => c.apply(direction, reference),
            None => {
                let r = crate::vec3::normalize(direction);
                r
            },
        }
    }
}

} // verus!
