//! The constraints a step is assembled from, as plain records.

use vstd::prelude::*;
use crate::object::handle::{BodyHandle, BodyPartHandle};
use crate::solver::jacobian::{ConstraintRow, Coupling};

verus! {

/// The settings of a step that the layout and the schedule read.
#[derive(Copy, Clone, Debug, PartialEq, Eq, Structural)]
pub struct IntegrationParameters {
    /// The number of passes of the velocity solver.
    pub max_velocity_iterations: usize,
    /// The number of passes of the position solver.
    pub max_position_iterations: usize,
}

/// A joint between two body parts.
#[derive(Copy, Clone, Debug, PartialEq, Eq, Structural)]
pub struct JointConstraint {
    /// The first body part the joint holds.
    pub anchor1: BodyPartHandle,
    /// The second body part the joint holds.
    pub anchor2: BodyPartHandle,
    /// The number of velocity rows the joint contributes.
    pub num_velocity_constraints: usize,
    /// Whether the joint takes part in the step.
    pub active: bool,
}

impl JointConstraint {
    /// The constraint between two bodies that the joint stored under `key`
    /// stands for.
    pub open spec fn spec_coupling(&self, key: usize) -> Coupling {
        Coupling {
            id: key,
            body1: self.anchor1.0,
            body2: self.anchor2.0,
            num_velocity_constraints: self.num_velocity_constraints,
            active: self.active,
        }
    }

    /// The two body parts the joint holds together.
    pub fn anchors(&self) -> (a: (BodyPartHandle, BodyPartHandle))
        ensures
            a == (self.anchor1, self.anchor2),
    {
        (self.anchor1, self.anchor2)
    }

    /// Whether the joint takes part in the step.
    pub fn is_active(&self) -> (a: bool)
        ensures
            a == self.active,
    {
        self.active
    }

    /// The number of velocity rows the joint contributes.
    pub fn num_velocity_constraints(&self) -> (n: usize)
        ensures
            n == self.num_velocity_constraints,
    {
        self.num_velocity_constraints
    }

    /// The constraint between two bodies that the joint stored under `key`
    /// stands for.
    pub fn coupling(&self, key: usize) -> (c: Coupling)
        ensures
            c == self.spec_coupling(key),
    {
        Coupling {
            id: key,
            body1: self.anchor1.0,
            body2: self.anchor2.0,
            num_velocity_constraints: self.num_velocity_constraints,
            active: self.active,
        }
    }
}

/// The contacts found between two bodies.
#[derive(Clone, Debug)]
pub struct ContactManifold {
    /// The first body in contact.
    pub body1: BodyHandle,
    /// The second body in contact.
    pub body2: BodyHandle,
    /// The identifiers of the contacts, by which impulses are found again
    /// from one step to the next.
    pub contacts: Vec<usize>,
}

impl ContactManifold {
    /// The constraint between two bodies that the manifold at `index` stands
    /// for, when its contacts take `rows` velocity rows.
    pub open spec fn spec_coupling(&self, index: usize, rows: usize) -> Coupling {
        Coupling {
            id: index,
            body1: self.body1,
            body2: self.body2,
            num_velocity_constraints: rows,
            active: true,
        }
    }

    /// The first body in contact.
    pub fn body1(&self) -> (h: BodyHandle)
        ensures
            h == self.body1,
    {
        self.body1
    }

    /// The second body in contact.
    pub fn body2(&self) -> (h: BodyHandle)
        ensures
            h == self.body2,
    {
        self.body2
    }

    /// The number of contacts.
    pub fn len(&self) -> (n: usize)
        ensures
            n == self.contacts@.len(),
    {
        self.contacts.len()
    }

    /// The constraint between two bodies that the manifold at `index` stands
    /// for, when its contacts take `rows` velocity rows.
    pub fn coupling(&self, index: usize, rows: usize) -> (c: Coupling)
        ensures
            c == self.spec_coupling(index, rows),
    {
        Coupling {
            id: index,
            body1: self.body1,
            body2: self.body2,
            num_velocity_constraints: rows,
            active: true,
        }
    }
}

/// Decides how contacts become constraints.
///
/// A model gives a manifold a number of velocity rows that depends on the
/// model and the manifold alone. Nothing else is promised of the number: the
/// solver lays out whatever number of rows it is told.
pub trait ContactModel {
    /// The number of velocity rows the model gives the contacts of a
    /// manifold.
    spec fn spec_num_velocity_constraints(&self, manifold: &ContactManifold) -> usize;

    /// The number of velocity rows the contacts of a manifold take.
    fn num_velocity_constraints(&self, manifold: &ContactManifold) -> (n: usize)
        ensures
            n == self.spec_num_velocity_constraints(manifold),
    ;
}

/// The constraint rows of one kind, for one step.
pub struct ConstraintSet {
    /// The velocity rows, in the order of their constraints.
    pub velocity: Vec<ConstraintRow>,
}

impl ConstraintSet {
    /// A set without rows.
    pub fn new() -> (s: ConstraintSet)
        ensures
            s.velocity@ == Seq::<ConstraintRow>::empty(),
    {
        ConstraintSet { velocity: Vec::new() }
    }

    /// The number of rows.
    pub fn len(&self) -> (n: usize)
        ensures
            n == self.velocity@.len(),
    {
        self.velocity.len()
    }

    /// Removes every row.
    pub fn clear(&mut self)
        ensures
            final(self).velocity@ == Seq::<ConstraintRow>::empty(),
    {
        self.velocity.clear();
    }
}

} // verus!
