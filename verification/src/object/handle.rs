//! Handles by which bodies and their parts are addressed.

use vstd::prelude::*;

verus! {

/// Identifies a body of a body set, or the ground.
///
/// A handle is either the ground or the index of a slot of the set. It stays
/// valid while other bodies are added or removed; once its own body is removed
/// the slot may be given to a later body.
#[derive(Copy, Clone, Debug, PartialEq, Eq, Hash, Structural)]
pub struct BodyHandle(Option<usize>);

/// Identifies one part of a body: the body and the index of the part in it.
///
/// For a body made of a single part the index is 0.
#[derive(Copy, Clone, Debug, PartialEq, Eq, Hash, Structural)]
pub struct BodyPartHandle(pub BodyHandle, pub usize);

impl BodyHandle {
    /// The slot behind this handle, `None` for the ground.
    pub closed spec fn slot(self) -> Option<usize> {
        self.0
    }

    /// The handle of the ground, for use in contracts.
    pub open spec fn spec_ground() -> BodyHandle {
        BodyHandle::from_slot(None)
    }

    /// The handle with the given slot, for use in contracts.
    pub closed spec fn from_slot(slot: Option<usize>) -> BodyHandle {
        BodyHandle(slot)
    }

    /// A handle is determined by its slot.
    pub broadcast proof fn lemma_slot_of_handle(self)
        ensures
            BodyHandle::from_slot(#[trigger] self.slot()) == self,
    {
    }

    /// The slot of a handle built from a slot is that slot.
    pub broadcast proof fn lemma_handle_of_slot(slot: Option<usize>)
        ensures
            #[trigger] BodyHandle::from_slot(slot).slot() == slot,
    {
    }

    /// The handle of the body stored in the given slot of a set, for use in
    /// contracts.
    pub open spec fn spec_indexed(index: usize) -> BodyHandle {
        BodyHandle::from_slot(Some(index))
    }

    /// The handle of the body stored in the given slot of a set.
    pub(crate) fn indexed(index: usize) -> (h: Self)
        ensures
            h == BodyHandle::spec_indexed(index),
            h.slot() == Some(index),
            h != BodyHandle::spec_ground(),
    {
        BodyHandle(Some(index))
    }

    /// The slot of the set this handle points at, `None` for the ground.
    pub(crate) fn index(&self) -> (slot: Option<usize>)
        ensures
            slot == self.slot(),
    {
        self.0
    }

    /// The body handle of the ground.
    #[inline]
    pub fn ground() -> (h: Self)
        ensures
            h == BodyHandle::spec_ground(),
            h.slot() is None,
    {
        BodyHandle(None)
    }

    /// Tests if this handle corresponds to the ground.
    #[inline]
    pub fn is_ground(&self) -> (g: bool)
        ensures
            g == (self.slot() is None),
            g == (*self == BodyHandle::spec_ground()),
    {
        self.0.is_none()
    }
}

impl BodyPartHandle {
    /// The body part handle of the ground.
    pub fn ground() -> (h: Self)
        ensures
            h == BodyPartHandle(BodyHandle::spec_ground(), 0),
    {
        BodyPartHandle(BodyHandle::ground(), 0)
    }

    /// Tests if this handle corresponds to the ground.
    pub fn is_ground(&self) -> (g: bool)
        ensures
            g == (self.0.slot() is None),
    {
        self.0.is_ground()
    }
}

} // verus!
