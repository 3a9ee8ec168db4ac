//! The slab that stores the joints, as the solver sees it.
//!
//! Nothing in this file is proved: each function states what the `slab` crate
//! does, and the solver is verified against these statements.

use slab::Slab;
use vstd::prelude::*;
use crate::solver::constraint::JointConstraint;

verus! {

/// The joints a slab stores, by key.
pub uninterp spec fn slab_joints(slab: Slab<JointConstraint>) -> Map<usize, JointConstraint>;

/// `Slab::iter`: the stored joints with their keys, in increasing order of
/// the keys.
#[verifier::external_body]
pub(crate) fn slab_joint_entries(slab: &Slab<JointConstraint>) -> (entries: Vec<
    (usize, JointConstraint),
>)
    ensures
        is_key_order(slab_joints(*slab), entries@),
{
    slab.iter().map(|entry| (entry.0, *entry.1)).collect()
}

/// Whether `entries` lists the joints of `joints` with their keys, each once
/// and in increasing order of the keys.
pub open spec fn is_key_order(
    joints: Map<usize, JointConstraint>,
    entries: Seq<(usize, JointConstraint)>,
) -> bool {
    &&& forall|i: int, j: int| 0 <= i < j < entries.len() ==> entries[i].0 < entries[j].0
    &&& forall|i: int|
        0 <= i < entries.len() ==> joints.contains_key(#[trigger] entries[i].0)
            && joints[entries[i].0] == entries[i].1
    &&& forall|k: usize|
        joints.contains_key(k) ==> exists|i: int| 0 <= i < entries.len() && entries[i].0 == k
}

} // verus!
