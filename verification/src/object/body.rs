//! The record the solver keeps of one body, and the descriptors that build it.

use vstd::prelude::*;
use crate::object::handle::BodyHandle;

verus! {

/// How a body takes part in the simulation.
#[derive(Copy, Clone, Debug, PartialEq, Eq, Hash, Structural)]
pub enum BodyStatus {
    /// The body is ignored by the solver.
    Disabled,
    /// The body never moves.
    Static,
    /// The body moves under forces and constraints.
    Dynamic,
    /// The body moves along a path fixed by the user.
    Kinematic,
}

/// What the solver knows of a body: its size in the system and where it sits.
#[derive(Copy, Clone, Debug, PartialEq, Eq, Structural)]
pub struct Body {
    /// The handle the body was built with.
    pub handle: BodyHandle,
    /// The number of degrees of freedom of the body.
    pub ndofs: usize,
    /// How the body takes part in the simulation.
    pub status: BodyStatus,
    /// The offset of the body's degrees of freedom in the velocity vectors
    /// of the system it was last assembled in.
    pub companion_id: usize,
    /// Whether constraints intrinsic to the body (motors, limits) are active.
    pub active_internal_constraints: bool,
}

impl Body {
    /// A body with the given handle, size and status, not yet placed in a
    /// system and without active internal constraints.
    pub fn new(handle: BodyHandle, ndofs: usize, status: BodyStatus) -> (b: Body)
        ensures
            b == (Body {
                handle,
                ndofs,
                status,
                companion_id: 0,
                active_internal_constraints: false,
            }),
    {
        Body { handle, ndofs, status, companion_id: 0, active_internal_constraints: false }
    }

    /// The ground: a static body without degrees of freedom.
    pub open spec fn spec_ground() -> Body {
        Body {
            handle: BodyHandle::spec_ground(),
            ndofs: 0,
            status: BodyStatus::Static,
            companion_id: 0,
            active_internal_constraints: false,
        }
    }

    /// The ground: a static body without degrees of freedom.
    pub fn ground() -> (b: Body)
        ensures
            b == Body::spec_ground(),
    {
        Body::new(BodyHandle::ground(), 0, BodyStatus::Static)
    }

    /// The degrees of freedom the solver sees: those of the body while it is
    /// dynamic, none otherwise.
    pub open spec fn spec_status_dependent_ndofs(&self) -> usize {
        if self.status == BodyStatus::Dynamic {
            self.ndofs
        } else {
            0
        }
    }

    /// The handle the body was built with.
    pub fn handle(&self) -> (h: BodyHandle)
        ensures
            h == self.handle,
    {
        self.handle
    }

    /// The number of degrees of freedom of the body.
    pub fn ndofs(&self) -> (n: usize)
        ensures
            n == self.ndofs,
    {
        self.ndofs
    }

    /// How the body takes part in the simulation.
    pub fn status(&self) -> (s: BodyStatus)
        ensures
            s == self.status,
    {
        self.status
    }

    /// Changes how the body takes part in the simulation.
    pub fn set_status(&mut self, status: BodyStatus)
        ensures
            *final(self) == (Body { status, ..*old(self) }),
    {
        self.status = status;
    }

    /// The degrees of freedom the solver sees: those of the body while it is
    /// dynamic, none otherwise.
    #[verifier::when_used_as_spec(spec_status_dependent_ndofs)]
    pub fn status_dependent_ndofs(&self) -> (n: usize)
        ensures
            n == self.spec_status_dependent_ndofs(),
    {
        match self.status {
            BodyStatus::Dynamic => self.ndofs,
            _ => 0,
        }
    }

    /// The offset of the body's degrees of freedom in the velocity vectors.
    pub fn companion_id(&self) -> (id: usize)
        ensures
            id == self.companion_id,
    {
        self.companion_id
    }

    /// Places the body's degrees of freedom at the given offset.
    pub fn set_companion_id(&mut self, id: usize)
        ensures
            *final(self) == (Body { companion_id: id, ..*old(self) }),
    {
        self.companion_id = id;
    }

    /// Whether constraints intrinsic to the body are active.
    pub fn has_active_internal_constraints(&self) -> (a: bool)
        ensures
            a == self.active_internal_constraints,
    {
        self.active_internal_constraints
    }

    /// Switches the constraints intrinsic to the body on or off.
    pub fn set_active_internal_constraints(&mut self, active: bool)
        ensures
            *final(self) == (Body { active_internal_constraints: active, ..*old(self) }),
    {
        self.active_internal_constraints = active;
    }
}

/// A body descriptor, handed to a body set to create a body.
///
/// The body a descriptor builds depends on the descriptor and the handle
/// alone. Nothing else is promised of it: the set stores whatever comes back.
pub trait BodyDesc {
    /// The body the descriptor builds for the given handle.
    spec fn spec_build_with_handle(&self, handle: BodyHandle) -> Body;

    /// Called by the body set to create a body with the given allocated handle.
    fn build_with_handle(&self, handle: BodyHandle) -> (b: Body)
        ensures
            b == self.spec_build_with_handle(handle),
    ;
}

/// Describes a body by its size, its status and its internal constraints.
#[derive(Copy, Clone, Debug, PartialEq, Eq, Structural)]
pub struct BodyTemplate {
    /// The number of degrees of freedom of the body to build.
    pub ndofs: usize,
    /// The status of the body to build.
    pub status: BodyStatus,
    /// Whether the body to build has active internal constraints.
    pub active_internal_constraints: bool,
}

impl BodyTemplate {
    /// The body this template builds for the given handle.
    pub open spec fn spec_build(&self, handle: BodyHandle) -> Body {
        Body {
            handle,
            ndofs: self.ndofs,
            status: self.status,
            companion_id: 0,
            active_internal_constraints: self.active_internal_constraints,
        }
    }

    /// The body this template builds for the given handle.
    pub fn build(&self, handle: BodyHandle) -> (b: Body)
        ensures
            b == self.spec_build(handle),
    {
        Body {
            handle,
            ndofs: self.ndofs,
            status: self.status,
            companion_id: 0,
            active_internal_constraints: self.active_internal_constraints,
        }
    }
}

impl BodyDesc for BodyTemplate {
    open spec fn spec_build_with_handle(&self, handle: BodyHandle) -> Body {
        self.spec_build(handle)
    }

    fn build_with_handle(&self, handle: BodyHandle) -> (b: Body)
        ensures
            b == self.spec_build(handle),
    {
        self.build(handle)
    }
}

} // verus!
