//! Moreau-Jean time-stepping scheme.
//!
//! The solver owns the layout of the system of one step: the length of the
//! velocity vectors, the sizes of the two zones of the jacobian buffer, the
//! constraint rows and the bodies with internal constraints. It computes the
//! layout and hands the host the schedule of the numeric phases to run on it.

use slab::Slab;
use vstd::prelude::*;
use crate::object::body::Body;
use crate::object::body_set::BodySlab;
use crate::object::handle::BodyHandle;
use crate::solver::constraint::{
    ConstraintSet, ContactManifold, ContactModel, IntegrationParameters, JointConstraint,
};
use crate::solver::island::{
    assign_companion_ids, body_dofs, companion_ids_assigned, island_dofs, island_is_dynamic,
    same_but_companion_id,
    lemma_assignment_is_idempotent, lemma_island_dofs_ignore_companion_ids,
    lemma_range_within_system, system_dofs,
};
use crate::solver::jacobian::{
    block_size, buffer_rows, constraint_rows, ground_size, is_ground_coupled, jacobian_size,
    jacobian_sizes, layout_rows,
    lemma_row_within_buffer, lemma_rows_concat, lemma_rows_do_not_overlap, lemma_sizes_concat,
    lemma_sizes_ignore_companion_ids, paired_size, ConstraintRow, Coupling,
};
use crate::solver::joint_store::{is_key_order, slab_joint_entries, slab_joints};
use crate::solver::schedule::{
    ccd_schedule, ordinary_schedule, schedule_step, schedule_step_ccd, StepAction,
};

verus! {

/// The layout of the system of one step.
pub struct SystemLayout {
    /// The length of the velocity vectors.
    pub system_ndofs: nat,
    /// The size of the zone of the jacobian buffer for the rows between two
    /// bodies with degrees of freedom.
    pub jacobian_sz: nat,
    /// The size of the zone of the jacobian buffer for the rows in which one
    /// side has no degrees of freedom.
    pub ground_jacobian_sz: nat,
    /// The rows of the joints.
    pub joint_rows: Seq<ConstraintRow>,
    /// The rows of the contacts.
    pub contact_rows: Seq<ConstraintRow>,
    /// The bodies of the island with active internal constraints.
    pub internal_constraints: Seq<BodyHandle>,
}

/// Whether the body behind the handle has degrees of freedom and active
/// internal constraints.
pub open spec fn has_internal_constraints(
    bodies: Map<BodyHandle, Body>,
    handle: BodyHandle,
) -> bool {
    bodies.contains_key(handle) && body_dofs(bodies, handle) != 0
        && bodies[handle].active_internal_constraints
}

/// The handles of the island behind which a body has degrees of freedom and
/// active internal constraints, in island order.
pub open spec fn internal_constraint_handles(
    bodies: Map<BodyHandle, Body>,
    island: Seq<BodyHandle>,
) -> Seq<BodyHandle> {
    island.filter(|h: BodyHandle| has_internal_constraints(bodies, h))
}

/// The constraints between bodies that the joints stand for, in the order of
/// the entries.
pub open spec fn joint_couplings(entries: Seq<(usize, JointConstraint)>) -> Seq<Coupling> {
    Seq::new(entries.len(), |i: int| entries[i].1.spec_coupling(entries[i].0))
}

/// The constraints between bodies that the manifolds stand for, when the
/// contacts of the `i`-th manifold take `rows[i]` velocity rows.
pub open spec fn contact_couplings(manifolds: Seq<ContactManifold>, rows: Seq<usize>) -> Seq<
    Coupling,
> {
    Seq::new(manifolds.len(), |i: int| manifolds[i].spec_coupling(i as usize, rows[i]))
}

/// The layout of the system of an island of the given bodies under the given
/// constraints, joints first. The rows of the joints start the two zones of
/// the buffer, the rows of the contacts follow them.
pub open spec fn system_layout(
    bodies: Map<BodyHandle, Body>,
    joints: Seq<Coupling>,
    contacts: Seq<Coupling>,
    island: Seq<BodyHandle>,
) -> SystemLayout {
    let paired = paired_size(bodies, joints + contacts);
    SystemLayout {
        system_ndofs: island_dofs(bodies, island),
        jacobian_sz: paired,
        ground_jacobian_sz: ground_size(bodies, joints + contacts),
        joint_rows: constraint_rows(bodies, joints, 0, paired),
        contact_rows: constraint_rows(
            bodies,
            contacts,
            paired_size(bodies, joints),
            paired + ground_size(bodies, joints),
        ),
        internal_constraints: internal_constraint_handles(bodies, island),
    }
}

/// Whether a system of the given bodies, constraints and island fits the
/// machine's integers: the length of its velocity vectors and the length of
/// its jacobian buffer.
pub open spec fn system_fits(
    bodies: Map<BodyHandle, Body>,
    joints: Seq<Coupling>,
    contacts: Seq<Coupling>,
    island: Seq<BodyHandle>,
) -> bool {
    island_dofs(bodies, island) <= usize::MAX && jacobian_size(bodies, joints + contacts)
        <= usize::MAX
}

/// The joints of a slab with their keys, in increasing order of the keys.
pub open spec fn joints_in_key_order(joints: Map<usize, JointConstraint>) -> Seq<
    (usize, JointConstraint),
> {
    choose|entries: Seq<(usize, JointConstraint)>| is_key_order(joints, entries)
}

/// The keys of the active joints among the entries, in the order of the
/// entries.
pub open spec fn active_joint_keys(entries: Seq<(usize, JointConstraint)>) -> Seq<usize>
    decreases entries.len(),
{
    if entries.len() == 0 {
        Seq::empty()
    } else if entries.last().1.active {
        active_joint_keys(entries.drop_last()).push(entries.last().0)
    } else {
        active_joint_keys(entries.drop_last())
    }
}

/// What an assembly from joints and manifolds comes to, when the contacts of
/// the `i`-th manifold take `rows[i]` velocity rows: the system is assembled
/// exactly where it fits the machine's integers; the bodies of the island
/// are then laid out and the layout is that of the system; and where it does
/// not fit nothing has changed.
pub open spec fn assembled_with(
    rows: Seq<usize>,
    before: Map<BodyHandle, Body>,
    after: Map<BodyHandle, Body>,
    layout_before: SystemLayout,
    layout_after: SystemLayout,
    joints: Seq<(usize, JointConstraint)>,
    manifolds: Seq<ContactManifold>,
    island: Seq<BodyHandle>,
    assembled: bool,
) -> bool {
    let js = joint_couplings(joints);
    let cs = contact_couplings(manifolds, rows);
    &&& rows.len() == manifolds.len()
    &&& assembled == system_fits(before, js, cs, island)
    &&& assembled ==> companion_ids_assigned(before, after, island, island.len() as int)
        && layout_after == system_layout(after, js, cs, island)
    &&& !assembled ==> after == before && layout_after == layout_before
}

/// The part of the velocity vectors that belongs to one body.
#[derive(Copy, Clone, Debug, PartialEq, Eq, Structural)]
pub struct VelocitySlice {
    /// The body.
    pub body: BodyHandle,
    /// The offset of the body's degrees of freedom in the velocity vectors.
    pub companion_id: usize,
    /// The number of degrees of freedom of the body.
    pub ndofs: usize,
}

/// The parts of the velocity vectors that belong to the bodies of the
/// island, in island order. Handles that name no body have no part.
pub open spec fn velocity_slices(bodies: Map<BodyHandle, Body>, island: Seq<BodyHandle>) -> Seq<
    VelocitySlice,
>
    decreases island.len(),
{
    if island.len() == 0 {
        Seq::empty()
    } else {
        let rest = velocity_slices(bodies, island.drop_last());
        let h = island.last();
        if bodies.contains_key(h) {
            rest.push(
                VelocitySlice {
                    body: h,
                    companion_id: bodies[h].companion_id,
                    ndofs: bodies[h].ndofs,
                },
            )
        } else {
            rest
        }
    }
}

/// One more handle of an island adds the part of its body, if there is one.
pub proof fn lemma_velocity_slices_step(
    bodies: Map<BodyHandle, Body>,
    island: Seq<BodyHandle>,
    i: int,
)
    requires
        0 <= i < island.len(),
    ensures
        velocity_slices(bodies, island.take(i + 1)) == if bodies.contains_key(island[i]) {
            velocity_slices(bodies, island.take(i)).push(
                VelocitySlice {
                    body: island[i],
                    companion_id: bodies[island[i]].companion_id,
                    ndofs: bodies[island[i]].ndofs,
                },
            )
        } else {
            velocity_slices(bodies, island.take(i))
        },
{
    assert(island.take(i + 1).drop_last() =~= island.take(i));
    assert(island.take(i + 1).last() == island[i]);
}

/// Every part listed for an island is the part of the body behind one of its
/// handles.
proof fn lemma_slice_has_handle(
    bodies: Map<BodyHandle, Body>,
    island: Seq<BodyHandle>,
    k: int,
) -> (j: int)
    requires
        0 <= k < velocity_slices(bodies, island).len(),
    ensures
        0 <= j < island.len(),
        bodies.contains_key(island[j]),
        velocity_slices(bodies, island)[k] == (VelocitySlice {
            body: island[j],
            companion_id: bodies[island[j]].companion_id,
            ndofs: bodies[island[j]].ndofs,
        }),
    decreases island.len(),
{
    let rest = velocity_slices(bodies, island.drop_last());
    if k < rest.len() {
        lemma_slice_has_handle(bodies, island.drop_last(), k)
    } else {
        island.len() - 1
    }
}

/// After an island whose bodies all have degrees of freedom has been laid
/// out, every part listed for it lies within the velocity vectors of the
/// system.
pub proof fn lemma_velocity_slices_within_system(
    before: Map<BodyHandle, Body>,
    after: Map<BodyHandle, Body>,
    island: Seq<BodyHandle>,
    k: int,
)
    requires
        island_is_dynamic(before, island),
        companion_ids_assigned(before, after, island, island.len() as int),
        0 <= k < velocity_slices(after, island).len(),
    ensures
        velocity_slices(after, island)[k].companion_id + velocity_slices(after, island)[k].ndofs
            <= island_dofs(after, island),
{
    let j = lemma_slice_has_handle(after, island, k);
    lemma_range_within_system(before, after, island, j);
    assert(before.contains_key(island[j]));
    assert(same_but_companion_id(after[island[j]], before[island[j]]));
}

/// Lists the handles of the island behind which a body has degrees of
/// freedom and active internal constraints, in island order.
pub fn collect_internal_constraints(bodies: &BodySlab, island: &Vec<BodyHandle>) -> (handles: Vec<
    BodyHandle,
>)
    ensures
        handles@ == internal_constraint_handles(bodies@, island@),
{
    let ghost pred = |h: BodyHandle| has_internal_constraints(bodies@, h);
    let mut handles: Vec<BodyHandle> = Vec::new();
    let mut i: usize = 0;
    assert(island@.take(0).filter(pred) =~= Seq::<BodyHandle>::empty()) by {
        reveal(Seq::filter);
    }
    while i < island.len()
        invariant
            i <= island.len(),
            pred == (|h: BodyHandle| has_internal_constraints(bodies@, h)),
            handles@ == island@.take(i as int).filter(pred),
        decreases island.len() - i,
    {
        let handle = island[i];
        proof {
            assert(island@.take(i as int + 1) =~= island@.take(i as int).push(handle));
            island@.take(i as int).lemma_filter_push(handle, pred);
        }
        match bodies.body(handle) {
            Some(body) => {
                if body.status_dependent_ndofs() != 0 && body.has_active_internal_constraints() {
                    handles.push(handle);
                }
            },
            None => {},
        }
        i += 1;
    }
    assert(island@.take(island@.len() as int) =~= island@);
    handles
}

impl SystemLayout {
    /// All the rows of the layout: those of the joints, then those of the
    /// contacts.
    pub open spec fn rows(self) -> Seq<ConstraintRow> {
        self.joint_rows + self.contact_rows
    }

    /// The length of the jacobian buffer.
    pub open spec fn jacobian_len(self) -> nat {
        self.jacobian_sz + self.ground_jacobian_sz
    }
}

/// The two zones of a layout make up the jacobian buffer of its constraints,
/// and its rows are the rows of that buffer.
pub proof fn lemma_layout_fills_buffer(
    bodies: Map<BodyHandle, Body>,
    joints: Seq<Coupling>,
    contacts: Seq<Coupling>,
    island: Seq<BodyHandle>,
)
    ensures
        system_layout(bodies, joints, contacts, island).jacobian_len() == jacobian_size(
            bodies,
            joints + contacts,
        ),
        system_layout(bodies, joints, contacts, island).rows() == buffer_rows(
            bodies,
            joints + contacts,
        ),
{
    lemma_rows_concat(bodies, joints, contacts, 0, paired_size(bodies, joints + contacts));
}

/// Every row of a layout lies within the jacobian buffer, on its side of the
/// boundary between the two zones, and no two rows overlap: of two different
/// rows, one ends before the other starts.
pub proof fn lemma_layout_rows_are_disjoint(
    bodies: Map<BodyHandle, Body>,
    joints: Seq<Coupling>,
    contacts: Seq<Coupling>,
    island: Seq<BodyHandle>,
)
    requires
        jacobian_size(bodies, joints + contacts) <= usize::MAX,
    ensures
        ({
            let layout = system_layout(bodies, joints, contacts, island);
            &&& forall|k: int|
                0 <= k < layout.rows().len() ==> (#[trigger] layout.rows()[k]).end()
                    <= layout.jacobian_len()
            &&& forall|k: int|
                0 <= k < layout.rows().len() && (#[trigger] layout.rows()[k]).ground
                    ==> layout.jacobian_sz <= layout.rows()[k].j_id
            &&& forall|k: int|
                0 <= k < layout.rows().len() && !(#[trigger] layout.rows()[k]).ground
                    ==> layout.rows()[k].end() <= layout.jacobian_sz
            &&& forall|a: int, b: int|
                0 <= a < layout.rows().len() && 0 <= b < layout.rows().len() && a != b ==> (
                #[trigger] layout.rows()[a]).end() <= (#[trigger] layout.rows()[b]).j_id
                    || layout.rows()[b].end() <= layout.rows()[a].j_id
        }),
{
    let layout = system_layout(bodies, joints, contacts, island);
    let cs = joints + contacts;
    lemma_layout_fills_buffer(bodies, joints, contacts, island);
    assert forall|k: int| 0 <= k < layout.rows().len() implies (#[trigger] layout.rows()[k]).end()
        <= layout.jacobian_len() && (layout.rows()[k].ground ==> layout.jacobian_sz
        <= layout.rows()[k].j_id) && (!layout.rows()[k].ground ==> layout.rows()[k].end()
        <= layout.jacobian_sz) by {
        lemma_row_within_buffer(bodies, cs, k);
    }
    assert forall|a: int, b: int|
        0 <= a < layout.rows().len() && 0 <= b < layout.rows().len() && a != b implies (
    #[trigger] layout.rows()[a]).end() <= (#[trigger] layout.rows()[b]).j_id
        || layout.rows()[b].end() <= layout.rows()[a].j_id by {
        lemma_rows_do_not_overlap(bodies, cs, a, b);
    }
}

/// Assembling the same island and constraints a second time, with nothing
/// changed in between, changes nothing: the bodies keep their companion ids,
/// the system fits as it did, and the layout is the same.
pub proof fn lemma_assembly_is_idempotent(
    before: Map<BodyHandle, Body>,
    once: Map<BodyHandle, Body>,
    twice: Map<BodyHandle, Body>,
    joints: Seq<Coupling>,
    contacts: Seq<Coupling>,
    island: Seq<BodyHandle>,
)
    requires
        companion_ids_assigned(before, once, island, island.len() as int),
        companion_ids_assigned(once, twice, island, island.len() as int),
    ensures
        twice == once,
        system_fits(once, joints, contacts, island) == system_fits(
            before,
            joints,
            contacts,
            island,
        ),
        system_layout(twice, joints, contacts, island) == system_layout(
            once,
            joints,
            contacts,
            island,
        ),
{
    lemma_assignment_is_idempotent(before, once, twice, island);
    lemma_island_dofs_ignore_companion_ids(before, once, island);
    lemma_sizes_ignore_companion_ids(before, once, joints + contacts);
}

/// The joints of a slab can be listed in the order of their keys in one way
/// only.
pub proof fn lemma_key_order_is_unique(
    joints: Map<usize, JointConstraint>,
    first: Seq<(usize, JointConstraint)>,
    second: Seq<(usize, JointConstraint)>,
)
    requires
        is_key_order(joints, first),
        is_key_order(joints, second),
    ensures
        first == second,
    decreases first.len(),
{
    if first.len() == 0 {
        if second.len() > 0 {
            assert(joints.contains_key(second[0].0));
        }
        assert(first =~= second);
    } else {
        let key = first.last().0;
        assert(joints.contains_key(first[first.len() - 1].0));
        let j = choose|j: int| 0 <= j < second.len() && second[j].0 == key;
        if j < second.len() - 1 {
            let later = second[second.len() - 1].0;
            assert(joints.contains_key(later));
            let i = choose|i: int| 0 <= i < first.len() && first[i].0 == later;
            assert(first[i].0 <= first[first.len() - 1].0);
        }
        let rest = joints.remove(key);
        assert(is_key_order(rest, first.drop_last())) by {
            assert forall|k: usize| rest.contains_key(k) implies exists|i: int|
                0 <= i < first.drop_last().len() && first.drop_last()[i].0 == k by {
                let i = choose|i: int| 0 <= i < first.len() && first[i].0 == k;
                assert(first.drop_last()[i].0 == k);
            }
        }
        assert(is_key_order(rest, second.drop_last())) by {
            assert forall|k: usize| rest.contains_key(k) implies exists|i: int|
                0 <= i < second.drop_last().len() && second.drop_last()[i].0 == k by {
                let i = choose|i: int| 0 <= i < second.len() && second[i].0 == k;
                assert(second.drop_last()[i].0 == k);
            }
        }
        lemma_key_order_is_unique(rest, first.drop_last(), second.drop_last());
        assert(first.last() == second.last());
        assert(first =~= first.drop_last().push(first.last()));
        assert(second =~= second.drop_last().push(second.last()));
    }
}

/// A list of the joints of a slab in the order of their keys is the list of
/// these joints in key order.
pub proof fn lemma_key_order_is_the_key_order(
    joints: Map<usize, JointConstraint>,
    entries: Seq<(usize, JointConstraint)>,
)
    requires
        is_key_order(joints, entries),
    ensures
        entries == joints_in_key_order(joints),
{
    lemma_key_order_is_unique(joints, entries, joints_in_key_order(joints));
}

/// An active joint between two bodies that both have degrees of freedom,
/// without any contact, fills the zone of the rows between such bodies with
/// its rows, each twice as wide as the degrees of freedom of the two bodies
/// together, and leaves the other zone empty.
pub proof fn lemma_joint_between_dynamic_bodies(
    bodies: Map<BodyHandle, Body>,
    joint: Coupling,
    island: Seq<BodyHandle>,
)
    requires
        joint.active,
        body_dofs(bodies, joint.body1) != 0,
        body_dofs(bodies, joint.body2) != 0,
    ensures
        ({
            let layout = system_layout(bodies, seq![joint], Seq::empty(), island);
            &&& layout.ground_jacobian_sz == 0
            &&& layout.jacobian_sz == joint.num_velocity_constraints * (2 * (body_dofs(
                bodies,
                joint.body1,
            ) + body_dofs(bodies, joint.body2)))
        }),
{
    let joints = seq![joint];
    assert(joints + Seq::<Coupling>::empty() =~= joints);
    assert(joints.drop_last() =~= Seq::<Coupling>::empty());
    assert(joints.last() == joint);
    assert(!is_ground_coupled(bodies, joint));
    assert(paired_size(bodies, joints) == paired_size(bodies, joints.drop_last()) + block_size(
        bodies,
        joint,
    ));
    assert(ground_size(bodies, joints) == ground_size(bodies, joints.drop_last()));
}

/// Moreau-Jean time-stepping scheme.
pub struct MoreauJeanSolver<C: ContactModel> {
    contact_model: C,
    system_ndofs: usize,
    jacobian_sz: usize,
    ground_jacobian_sz: usize,
    contact_constraints: ConstraintSet,
    joint_constraints: ConstraintSet,
    internal_constraints: Vec<BodyHandle>,
}

impl<C: ContactModel> MoreauJeanSolver<C> {
    /// The layout the solver holds.
    pub closed spec fn view(&self) -> SystemLayout {
        SystemLayout {
            system_ndofs: self.system_ndofs as nat,
            jacobian_sz: self.jacobian_sz as nat,
            ground_jacobian_sz: self.ground_jacobian_sz as nat,
            joint_rows: self.joint_constraints.velocity@,
            contact_rows: self.contact_constraints.velocity@,
            internal_constraints: self.internal_constraints@,
        }
    }

    /// The contact model the solver holds.
    pub closed spec fn spec_contact_model(&self) -> C {
        self.contact_model
    }

    /// The number of velocity rows the contact model of the solver gives the
    /// contacts of each of the manifolds.
    pub open spec fn rows_by_model(&self, manifolds: Seq<ContactManifold>) -> Seq<usize> {
        Seq::new(
            manifolds.len(),
            |i: int| self.spec_contact_model().spec_num_velocity_constraints(&manifolds[i]),
        )
    }

    /// The layout of a system without bodies or constraints.
    pub open spec fn empty_layout() -> SystemLayout {
        SystemLayout {
            system_ndofs: 0,
            jacobian_sz: 0,
            ground_jacobian_sz: 0,
            joint_rows: Seq::empty(),
            contact_rows: Seq::empty(),
            internal_constraints: Seq::empty(),
        }
    }

    /// Create a new time-stepping scheme with the given contact model.
    pub fn new(contact_model: C) -> (s: Self)
        ensures
            s@ == Self::empty_layout(),
            s.spec_contact_model() == contact_model,
    {
        MoreauJeanSolver {
            contact_model,
            system_ndofs: 0,
            jacobian_sz: 0,
            ground_jacobian_sz: 0,
            contact_constraints: ConstraintSet::new(),
            joint_constraints: ConstraintSet::new(),
            internal_constraints: Vec::new(),
        }
    }

    /// Sets the contact model.
    pub fn set_contact_model(&mut self, model: C)
        ensures
            final(self).spec_contact_model() == model,
            final(self)@ == old(self)@,
    {
        self.contact_model = model
    }

    /// The contact model the solver holds.
    pub fn contact_model(&self) -> (m: &C)
        ensures
            *m == self.spec_contact_model(),
    {
        &self.contact_model
    }

    /// The length of the velocity vectors of the system.
    pub fn system_ndofs(&self) -> (n: usize)
        ensures
            n == self@.system_ndofs,
    {
        self.system_ndofs
    }

    /// The size of the zone of the jacobian buffer for the rows between two
    /// bodies with degrees of freedom. The other zone starts there.
    pub fn jacobian_sz(&self) -> (n: usize)
        ensures
            n == self@.jacobian_sz,
    {
        self.jacobian_sz
    }

    /// The size of the zone of the jacobian buffer for the rows in which one
    /// side has no degrees of freedom.
    pub fn ground_jacobian_sz(&self) -> (n: usize)
        ensures
            n == self@.ground_jacobian_sz,
    {
        self.ground_jacobian_sz
    }

    /// The rows of the joints.
    pub fn joint_constraints(&self) -> (set: &ConstraintSet)
        ensures
            set.velocity@ == self@.joint_rows,
    {
        &self.joint_constraints
    }

    /// The rows of the contacts.
    pub fn contact_constraints(&self) -> (set: &ConstraintSet)
        ensures
            set.velocity@ == self@.contact_rows,
    {
        &self.contact_constraints
    }

    /// The bodies of the island with active internal constraints.
    pub fn internal_constraints(&self) -> (handles: &Vec<BodyHandle>)
        ensures
            handles@ == self@.internal_constraints,
    {
        &self.internal_constraints
    }

    /// Sets the length of the velocity vectors of the system.
    pub fn resize_buffers(&mut self, ndofs: usize)
        ensures
            final(self)@ == (SystemLayout { system_ndofs: ndofs as nat, ..old(self)@ }),
            final(self).spec_contact_model() == old(self).spec_contact_model(),
    {
        self.system_ndofs = ndofs;
    }

    /// Lays out the system of an island under the given constraints, joints
    /// first: the bodies of the island get their companion ids, and the
    /// solver holds the layout of the system.
    pub fn assemble_couplings(
        &mut self,
        bodies: &mut BodySlab,
        joints: &Vec<Coupling>,
        contacts: &Vec<Coupling>,
        island: &Vec<BodyHandle>,
    )
        requires
            island_is_dynamic(old(bodies)@, island@),
            system_fits(old(bodies)@, joints@, contacts@, island@),
        ensures
            companion_ids_assigned(old(bodies)@, final(bodies)@, island@, island@.len() as int),
            final(self)@ == system_layout(final(bodies)@, joints@, contacts@, island@),
            final(self).spec_contact_model() == old(self).spec_contact_model(),
    {
        let total = assign_companion_ids(bodies, island);
        proof {
            lemma_island_dofs_ignore_companion_ids(old(bodies)@, bodies@, island@);
            lemma_sizes_ignore_companion_ids(old(bodies)@, bodies@, joints@ + contacts@);
            lemma_sizes_concat(bodies@, joints@, contacts@);
        }
        self.internal_constraints = collect_internal_constraints(bodies, island);
        self.resize_buffers(total);
        let (paired_joints, ground_joints) = match jacobian_sizes(bodies, joints) {
            Some(sizes) => sizes,
            None => (0, 0),
        };
        let (paired_contacts, ground_contacts) = match jacobian_sizes(bodies, contacts) {
            Some(sizes) => sizes,
            None => (0, 0),
        };
        self.jacobian_sz = paired_joints + paired_contacts;
        self.ground_jacobian_sz = ground_joints + ground_contacts;
        self.joint_constraints.velocity = layout_rows(bodies, joints, 0, self.jacobian_sz);
        self.contact_constraints.velocity = layout_rows(
            bodies,
            contacts,
            paired_joints,
            self.jacobian_sz + ground_joints,
        );
    }

    /// Lists the parts of the velocity vectors that belong to the bodies of
    /// the island, in island order: to each the host adds the free velocity
    /// and the correction found by the solver, and then integrates the body.
    /// Handles that name no body are passed over.
    pub fn update_velocities_and_integrate(
        &self,
        bodies: &BodySlab,
        island: &Vec<BodyHandle>,
    ) -> (slices: Vec<VelocitySlice>)
        ensures
            slices@ == velocity_slices(bodies@, island@),
    {
        let mut slices: Vec<VelocitySlice> = Vec::new();
        let mut i: usize = 0;
        while i < island.len()
            invariant
                i <= island.len(),
                slices@ == velocity_slices(bodies@, island@.take(i as int)),
            decreases island.len() - i,
        {
            let handle = island[i];
            proof {
                lemma_velocity_slices_step(bodies@, island@, i as int);
            }
            match bodies.body(handle) {
                Some(body) => {
                    slices.push(
                        VelocitySlice {
                            body: handle,
                            companion_id: body.companion_id(),
                            ndofs: body.ndofs(),
                        },
                    );
                },
                None => {},
            }
            i += 1;
        }
        assert(island@.take(island@.len() as int) =~= island@);
        slices
    }

    /// Asks the contact model, for each manifold in turn, how many velocity
    /// rows its contacts take, and lists the constraints between bodies that
    /// the manifolds stand for.
    fn contact_couplings_of(&self, manifolds: &Vec<ContactManifold>) -> (r: (
        Vec<Coupling>,
        Vec<usize>,
    ))
        ensures
            r.1@ == self.rows_by_model(manifolds@),
            r.0@ == contact_couplings(manifolds@, r.1@),
    {
        let mut couplings: Vec<Coupling> = Vec::new();
        let mut rows: Vec<usize> = Vec::new();
        let mut i: usize = 0;
        while i < manifolds.len()
            invariant
                i <= manifolds.len(),
                rows@.len() == i,
                couplings@.len() == i,
                forall|k: int|
                    0 <= k < i ==> #[trigger] rows@[k]
                        == self.spec_contact_model().spec_num_velocity_constraints(&manifolds@[k]),
                forall|k: int|
                    0 <= k < i ==> #[trigger] couplings@[k] == manifolds@[k].spec_coupling(
                        k as usize,
                        rows@[k],
                    ),
            decreases manifolds.len() - i,
        {
            let n = self.contact_model.num_velocity_constraints(&manifolds[i]);
            couplings.push(manifolds[i].coupling(i, n));
            rows.push(n);
            i += 1;
        }
        assert(rows@ =~= self.rows_by_model(manifolds@));
        assert(couplings@ =~= contact_couplings(manifolds@, rows@));
        (couplings, rows)
    }

    /// Lays out the system of an island under the given constraints, joints
    /// first, where it fits the machine's integers, and returns whether it
    /// does. A system that does not fit is left alone: nothing changes.
    pub fn try_assemble_couplings(
        &mut self,
        bodies: &mut BodySlab,
        joints: &Vec<Coupling>,
        contacts: &Vec<Coupling>,
        island: &Vec<BodyHandle>,
    ) -> (assembled: bool)
        requires
            island_is_dynamic(old(bodies)@, island@),
        ensures
            assembled == system_fits(old(bodies)@, joints@, contacts@, island@),
            assembled ==> companion_ids_assigned(
                old(bodies)@,
                final(bodies)@,
                island@,
                island@.len() as int,
            ),
            assembled ==> final(self)@ == system_layout(
                final(bodies)@,
                joints@,
                contacts@,
                island@,
            ),
            !assembled ==> final(bodies)@ == old(bodies)@ && final(self)@ == old(self)@,
            final(self).spec_contact_model() == old(self).spec_contact_model(),
    {
        proof {
            lemma_sizes_concat(bodies@, joints@, contacts@);
        }
        let dofs_fit = system_dofs(bodies, island).is_some();
        let sizes = (jacobian_sizes(bodies, joints), jacobian_sizes(bodies, contacts));
        let jacobian_fits = match sizes {
            (Some((paired1, ground1)), Some((paired2, ground2))) => {
                let size1 = paired1 + ground1;
                let size2 = paired2 + ground2;
                size2 <= usize::MAX - size1
            },
            _ => false,
        };
        let assembled = dofs_fit && jacobian_fits;
        if assembled {
            self.assemble_couplings(bodies, joints, contacts, island);
        }
        assembled
    }

    /// Assembles the system of an island: the joints are taken in the order
    /// of their keys, the contact model is asked about each manifold in turn
    /// how many velocity rows its contacts take, and the system is laid out,
    /// joints first. Returns whether it was: a system that does not fit the
    /// machine's integers is left alone, and nothing changes.
    pub fn assemble_system(
        &mut self,
        bodies: &mut BodySlab,
        joints: &Slab<JointConstraint>,
        manifolds: &Vec<ContactManifold>,
        island: &Vec<BodyHandle>,
    ) -> (assembled: bool)
        requires
            island_is_dynamic(old(bodies)@, island@),
        ensures
            assembled_with(
                old(self).rows_by_model(manifolds@),
                old(bodies)@,
                final(bodies)@,
                old(self)@,
                final(self)@,
                joints_in_key_order(slab_joints(*joints)),
                manifolds@,
                island@,
                assembled,
            ),
            final(self).spec_contact_model() == old(self).spec_contact_model(),
    {
        let entries = slab_joint_entries(joints);
        let mut joint_list: Vec<Coupling> = Vec::new();
        let mut i: usize = 0;
        while i < entries.len()
            invariant
                i <= entries.len(),
                joint_list@.len() == i,
                forall|k: int|
                    0 <= k < i ==> #[trigger] joint_list@[k] == entries@[k].1.spec_coupling(
                        entries@[k].0,
                    ),
            decreases entries.len() - i,
        {
            joint_list.push(entries[i].1.coupling(entries[i].0));
            i += 1;
        }
        assert(joint_list@ =~= joint_couplings(entries@));
        let (contact_list, rows) = self.contact_couplings_of(manifolds);
        proof {
            lemma_key_order_is_the_key_order(slab_joints(*joints), entries@);
        }
        self.try_assemble_couplings(bodies, &joint_list, &contact_list, island)
    }

    /// Lists the keys of the joints whose impulses are to be kept for the
    /// next step: those of the active joints, in increasing order.
    pub fn cache_impulses(&self, joints: &Slab<JointConstraint>) -> (keys: Vec<usize>)
        ensures
            keys@ == active_joint_keys(joints_in_key_order(slab_joints(*joints))),
    {
        let entries = slab_joint_entries(joints);
        proof {
            lemma_key_order_is_the_key_order(slab_joints(*joints), entries@);
        }
        let mut keys: Vec<usize> = Vec::new();
        let mut i: usize = 0;
        while i < entries.len()
            invariant
                i <= entries.len(),
                keys@ == active_joint_keys(entries@.take(i as int)),
            decreases entries.len() - i,
        {
            proof {
                assert(entries@.take(i as int + 1).drop_last() =~= entries@.take(i as int));
                assert(entries@.take(i as int + 1).last() == entries@[i as int]);
            }
            if entries[i].1.is_active() {
                keys.push(entries[i].0);
            }
            i += 1;
        }
        assert(entries@.take(entries@.len() as int) =~= entries@);
        keys
    }

    /// Perform one step of the time-stepping scheme: the system of the island
    /// is assembled, and the host is handed the schedule of an ordinary step
    /// to run on it. Where the system does not fit the machine's integers
    /// there is no schedule, and nothing changes.
    pub fn step(
        &mut self,
        bodies: &mut BodySlab,
        joints: &Slab<JointConstraint>,
        manifolds: &Vec<ContactManifold>,
        island: &Vec<BodyHandle>,
        params: &IntegrationParameters,
    ) -> (schedule: Option<Vec<StepAction>>)
        requires
            island_is_dynamic(old(bodies)@, island@),
        ensures
            assembled_with(
                old(self).rows_by_model(manifolds@),
                old(bodies)@,
                final(bodies)@,
                old(self)@,
                final(self)@,
                joints_in_key_order(slab_joints(*joints)),
                manifolds@,
                island@,
                schedule is Some,
            ),
            schedule is Some ==> schedule.unwrap()@ == ordinary_schedule(*params),
            final(self).spec_contact_model() == old(self).spec_contact_model(),
    {
        if self.assemble_system(bodies, joints, manifolds, island) {
            Some(schedule_step(params))
        } else {
            None
        }
    }

    /// Perform one sub-step of the time-stepping scheme as part of a
    /// continuous collision detection on the given pair of bodies, both of
    /// which must be in the set: the system of the island is assembled, and
    /// the host is handed the schedule of such a sub-step to run on it.
    /// Where the system does not fit the machine's integers there is no
    /// schedule, and nothing changes.
    pub fn step_ccd(
        &mut self,
        bodies: &mut BodySlab,
        joints: &Slab<JointConstraint>,
        manifolds: &Vec<ContactManifold>,
        ccd_pair: [BodyHandle; 2],
        island: &Vec<BodyHandle>,
        params: &IntegrationParameters,
    ) -> (schedule: Option<Vec<StepAction>>)
        requires
            island_is_dynamic(old(bodies)@, island@),
            old(bodies)@.contains_key(ccd_pair[0]),
            old(bodies)@.contains_key(ccd_pair[1]),
        ensures
            assembled_with(
                old(self).rows_by_model(manifolds@),
                old(bodies)@,
                final(bodies)@,
                old(self)@,
                final(self)@,
                joints_in_key_order(slab_joints(*joints)),
                manifolds@,
                island@,
                schedule is Some,
            ),
            schedule is Some ==> schedule.unwrap()@ == ccd_schedule(
                *params,
                ccd_pair[0],
                ccd_pair[1],
            ),
            final(self).spec_contact_model() == old(self).spec_contact_model(),
    {
        if self.assemble_system(bodies, joints, manifolds, island) {
            Some(schedule_step_ccd(params, ccd_pair[0], ccd_pair[1]))
        } else {
            None
        }
    }
}

} // verus!
