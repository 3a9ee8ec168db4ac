use nphysics::object::body::{BodyStatus, BodyTemplate};
use nphysics::object::body_set::BodySlab;
use nphysics::object::handle::{BodyHandle, BodyPartHandle};
use nphysics::solver::constraint::{
    ConstraintSet, ContactManifold, ContactModel, IntegrationParameters, JointConstraint,
};
use nphysics::solver::jacobian::{ConstraintRow, Coupling};
use nphysics::solver::moreau_jean_solver::{MoreauJeanSolver, VelocitySlice};
use nphysics::solver::schedule::{schedule_step, schedule_step_ccd, StepAction, StepStage};
use slab::Slab;

/// A contact model whose contacts take a fixed number of rows each.
struct RowsPerContact(usize);

impl ContactModel for RowsPerContact {
    fn spec_num_velocity_constraints(&self, manifold: &ContactManifold) -> usize {
        self.num_velocity_constraints(manifold)
    }

    fn num_velocity_constraints(&self, manifold: &ContactManifold) -> usize {
        self.0 * manifold.len()
    }
}

fn dynamic(ndofs: usize) -> BodyTemplate {
    BodyTemplate { ndofs, status: BodyStatus::Dynamic, active_internal_constraints: false }
}

fn motorised(ndofs: usize) -> BodyTemplate {
    BodyTemplate { ndofs, status: BodyStatus::Dynamic, active_internal_constraints: true }
}

fn joint(body1: BodyHandle, body2: BodyHandle, rows: usize) -> JointConstraint {
    JointConstraint {
        anchor1: BodyPartHandle(body1, 0),
        anchor2: BodyPartHandle(body2, 0),
        num_velocity_constraints: rows,
        active: true,
    }
}

fn manifold(body1: BodyHandle, body2: BodyHandle, contacts: usize) -> ContactManifold {
    ContactManifold { body1, body2, contacts: (0..contacts).collect() }
}

fn params() -> IntegrationParameters {
    IntegrationParameters { max_velocity_iterations: 8, max_position_iterations: 3 }
}

fn widths_fill(rows: &[ConstraintRow], from: usize) -> usize {
    let mut cursor = from;
    for row in rows {
        assert_eq!(row.j_id, cursor);
        cursor += 2 * (row.ndofs1 + row.ndofs2);
    }
    cursor
}

#[test]
fn new_solver_holds_an_empty_layout() {
    let solver = MoreauJeanSolver::new(RowsPerContact(3));
    assert_eq!(solver.system_ndofs(), 0);
    assert_eq!(solver.jacobian_sz(), 0);
    assert_eq!(solver.ground_jacobian_sz(), 0);
    assert_eq!(solver.joint_constraints().len(), 0);
    assert_eq!(solver.contact_constraints().len(), 0);
    assert!(solver.internal_constraints().is_empty());
    assert_eq!(solver.contact_model().0, 3);
}

#[test]
fn set_contact_model_replaces_the_model() {
    let mut bodies = BodySlab::new();
    let a = bodies.add_body(&dynamic(3));
    let joints = Slab::new();
    let manifolds = vec![manifold(a, BodyHandle::ground(), 2)];
    let mut solver = MoreauJeanSolver::new(RowsPerContact(1));
    assert!(solver.assemble_system(&mut bodies, &joints, &manifolds, &vec![a]));
    assert_eq!(solver.contact_constraints().len(), 2);
    solver.set_contact_model(RowsPerContact(3));
    assert_eq!(solver.contact_model().0, 3);
    assert_eq!(solver.contact_constraints().len(), 2);
    assert!(solver.assemble_system(&mut bodies, &joints, &manifolds, &vec![a]));
    assert_eq!(solver.contact_constraints().len(), 6);
    assert_eq!(solver.ground_jacobian_sz(), 6 * 2 * 3);
}

#[test]
fn resize_buffers_sets_the_length_of_the_velocity_vectors() {
    let mut solver = MoreauJeanSolver::new(RowsPerContact(1));
    solver.resize_buffers(12);
    assert_eq!(solver.system_ndofs(), 12);
    assert_eq!(solver.jacobian_sz(), 0);
}

#[test]
fn constraint_set_is_cleared() {
    let mut set = ConstraintSet::new();
    assert_eq!(set.len(), 0);
    set.velocity.push(ConstraintRow {
        id: 0,
        row: 0,
        assembly_id1: 0,
        assembly_id2: 0,
        ndofs1: 1,
        ndofs2: 1,
        j_id: 0,
        ground: false,
    });
    assert_eq!(set.len(), 1);
    set.clear();
    assert_eq!(set.len(), 0);
}

#[test]
fn joint_and_manifold_stand_for_couplings() {
    let mut bodies = BodySlab::new();
    let a = bodies.add_body(&dynamic(3));
    let b = bodies.add_body(&dynamic(3));
    let j = JointConstraint { active: false, ..joint(a, b, 5) };
    assert_eq!(j.anchors(), (BodyPartHandle(a, 0), BodyPartHandle(b, 0)));
    assert!(!j.is_active());
    assert_eq!(j.num_velocity_constraints(), 5);
    assert_eq!(
        j.coupling(9),
        Coupling { id: 9, body1: a, body2: b, num_velocity_constraints: 5, active: false }
    );
    let m = manifold(b, a, 4);
    assert_eq!(m.body1(), b);
    assert_eq!(m.body2(), a);
    assert_eq!(m.len(), 4);
    assert_eq!(
        m.coupling(2, 12),
        Coupling { id: 2, body1: b, body2: a, num_velocity_constraints: 12, active: true }
    );
}

#[test]
fn two_bodies_and_a_joint_fill_the_paired_zone_only() {
    let mut bodies = BodySlab::new();
    let a = bodies.add_body(&dynamic(6));
    let b = bodies.add_body(&dynamic(3));
    let mut joints = Slab::new();
    let key = joints.insert(joint(a, b, 5));
    let mut solver = MoreauJeanSolver::new(RowsPerContact(1));
    assert!(solver.assemble_system(&mut bodies, &joints, &vec![], &vec![a, b]));
    assert_eq!(solver.ground_jacobian_sz(), 0);
    assert_eq!(solver.jacobian_sz(), 5 * 2 * (6 + 3));
    assert_eq!(solver.system_ndofs(), 9);
    let rows = &solver.joint_constraints().velocity;
    assert_eq!(rows.len(), 5);
    for (r, row) in rows.iter().enumerate() {
        assert_eq!(
            *row,
            ConstraintRow {
                id: key,
                row: r,
                assembly_id1: 0,
                assembly_id2: 6,
                ndofs1: 6,
                ndofs2: 3,
                j_id: r * 18,
                ground: false,
            }
        );
    }
    assert_eq!(solver.contact_constraints().len(), 0);
}

#[test]
fn assembly_lays_joints_before_contacts() {
    let mut bodies = BodySlab::new();
    let a = bodies.add_body(&dynamic(2));
    let b = bodies.add_body(&motorised(1));
    let g = BodyHandle::ground();
    let mut joints = Slab::new();
    let j0 = joints.insert(joint(a, b, 2));
    let j1 = joints.insert(joint(b, g, 1));
    let manifolds = vec![manifold(b, a, 1), manifold(g, a, 2)];
    let mut solver = MoreauJeanSolver::new(RowsPerContact(3));
    assert!(solver.assemble_system(&mut bodies, &joints, &manifolds, &vec![b, a]));
    assert_eq!(bodies.body(b).unwrap().companion_id(), 0);
    assert_eq!(bodies.body(a).unwrap().companion_id(), 1);
    assert_eq!(solver.system_ndofs(), 3);
    assert_eq!(solver.jacobian_sz(), 2 * 6 + 3 * 6);
    assert_eq!(solver.ground_jacobian_sz(), 1 * 2 + 6 * 4);
    assert_eq!(solver.internal_constraints(), &vec![b]);
    let row = |id, row, ids: (usize, usize), ndofs: (usize, usize), j_id, ground| ConstraintRow {
        id,
        row,
        assembly_id1: ids.0,
        assembly_id2: ids.1,
        ndofs1: ndofs.0,
        ndofs2: ndofs.1,
        j_id,
        ground,
    };
    assert_eq!(
        solver.joint_constraints().velocity,
        vec![
            row(j0, 0, (1, 0), (2, 1), 0, false),
            row(j0, 1, (1, 0), (2, 1), 6, false),
            row(j1, 0, (0, 0), (1, 0), 30, true),
        ]
    );
    assert_eq!(
        solver.contact_constraints().velocity,
        vec![
            row(0, 0, (0, 1), (1, 2), 12, false),
            row(0, 1, (0, 1), (1, 2), 18, false),
            row(0, 2, (0, 1), (1, 2), 24, false),
            row(1, 0, (0, 1), (0, 2), 32, true),
            row(1, 1, (0, 1), (0, 2), 36, true),
            row(1, 2, (0, 1), (0, 2), 40, true),
            row(1, 3, (0, 1), (0, 2), 44, true),
            row(1, 4, (0, 1), (0, 2), 48, true),
            row(1, 5, (0, 1), (0, 2), 52, true),
        ]
    );
}

#[test]
fn assembly_takes_joints_in_key_order_and_skips_idle_ones() {
    let mut bodies = BodySlab::new();
    let a = bodies.add_body(&dynamic(1));
    let b = bodies.add_body(&dynamic(1));
    let mut joints = Slab::new();
    let k0 = joints.insert(joint(a, b, 1));
    let k1 = joints.insert(JointConstraint { active: false, ..joint(a, b, 7) });
    let k2 = joints.insert(joint(b, a, 2));
    let k3 = joints.insert(joint(a, b, 1));
    joints.remove(k0);
    let k4 = joints.insert(joint(a, a, 1));
    assert_eq!(k4, k0);
    let mut solver = MoreauJeanSolver::new(RowsPerContact(1));
    assert!(solver.assemble_system(&mut bodies, &joints, &vec![], &vec![a, b]));
    let ids: Vec<usize> = solver.joint_constraints().velocity.iter().map(|r| r.id).collect();
    assert_eq!(ids, vec![k4, k2, k2, k3]);
    assert!(!ids.contains(&k1));
    assert_eq!(solver.jacobian_sz(), 4 * 4);
    assert_eq!(widths_fill(&solver.joint_constraints().velocity, 0), 16);
}

#[test]
fn assembly_skips_constraints_on_missing_bodies() {
    let mut bodies = BodySlab::new();
    let a = bodies.add_body(&dynamic(2));
    let gone = bodies.add_body(&dynamic(2));
    bodies.remove_body(gone);
    let mut joints = Slab::new();
    joints.insert(joint(a, gone, 3));
    let manifolds = vec![manifold(gone, a, 2), manifold(a, BodyHandle::ground(), 1)];
    let mut solver = MoreauJeanSolver::new(RowsPerContact(1));
    assert!(solver.assemble_system(&mut bodies, &joints, &manifolds, &vec![gone, a]));
    assert_eq!(solver.system_ndofs(), 2);
    assert_eq!(bodies.body(a).unwrap().companion_id(), 0);
    assert_eq!(solver.joint_constraints().len(), 0);
    assert_eq!(solver.contact_constraints().len(), 1);
    assert_eq!(solver.contact_constraints().velocity[0].id, 1);
    assert_eq!(solver.jacobian_sz(), 0);
    assert_eq!(solver.ground_jacobian_sz(), 4);
}

#[test]
fn assembly_lists_bodies_with_internal_constraints_in_island_order() {
    let mut bodies = BodySlab::new();
    let a = bodies.add_body(&motorised(2));
    let b = bodies.add_body(&dynamic(2));
    let c = bodies.add_body(&motorised(1));
    let gone = bodies.add_body(&motorised(1));
    bodies.remove_body(gone);
    let joints = Slab::new();
    let mut solver = MoreauJeanSolver::new(RowsPerContact(1));
    assert!(solver.assemble_system(&mut bodies, &joints, &vec![], &vec![c, gone, b, a]));
    assert_eq!(solver.internal_constraints(), &vec![c, a]);
    assert!(solver.assemble_system(&mut bodies, &joints, &vec![], &vec![b]));
    assert!(solver.internal_constraints().is_empty());
}

#[test]
fn assembly_sizes_add_up_to_the_buffer_and_rows_do_not_overlap() {
    let mut bodies = BodySlab::new();
    let handles: Vec<BodyHandle> =
        [3usize, 1, 6, 2].iter().map(|n| bodies.add_body(&dynamic(*n))).collect();
    let g = BodyHandle::ground();
    let mut joints = Slab::new();
    joints.insert(joint(handles[0], handles[1], 2));
    joints.insert(joint(handles[2], g, 3));
    joints.insert(joint(handles[3], handles[2], 1));
    let manifolds = vec![
        manifold(handles[1], handles[3], 2),
        manifold(g, handles[0], 1),
        manifold(handles[2], handles[0], 3),
    ];
    let mut solver = MoreauJeanSolver::new(RowsPerContact(2));
    assert!(solver.assemble_system(&mut bodies, &joints, &manifolds, &handles));
    let paired = solver.jacobian_sz();
    let total = paired + solver.ground_jacobian_sz();
    let mut buffer: Vec<Option<(bool, usize)>> = vec![None; total];
    let sets = [
        (false, &solver.joint_constraints().velocity),
        (true, &solver.contact_constraints().velocity),
    ];
    for (contact, rows) in sets {
        for (index, row) in rows.iter().enumerate() {
            let width = 2 * (row.ndofs1 + row.ndofs2);
            if row.ground {
                assert!(row.j_id >= paired);
            } else {
                assert!(row.j_id + width <= paired);
            }
            for slot in row.j_id..row.j_id + width {
                assert_eq!(buffer[slot], None);
                buffer[slot] = Some((contact, index));
            }
        }
    }
    assert!(buffer.iter().all(|s| s.is_some()));
}

#[test]
fn assembling_twice_gives_the_same_system() {
    let mut bodies = BodySlab::new();
    let a = bodies.add_body(&dynamic(3));
    let b = bodies.add_body(&motorised(2));
    let mut joints = Slab::new();
    joints.insert(joint(a, b, 2));
    joints.insert(joint(a, BodyHandle::ground(), 1));
    let manifolds = vec![manifold(a, b, 2)];
    let island = vec![b, a];
    let mut solver = MoreauJeanSolver::new(RowsPerContact(3));
    assert!(solver.assemble_system(&mut bodies, &joints, &manifolds, &island));
    let first = (
        solver.system_ndofs(),
        solver.jacobian_sz(),
        solver.ground_jacobian_sz(),
        solver.joint_constraints().velocity.clone(),
        solver.contact_constraints().velocity.clone(),
        solver.internal_constraints().clone(),
        *bodies.body(a).unwrap(),
        *bodies.body(b).unwrap(),
    );
    assert!(solver.assemble_system(&mut bodies, &joints, &manifolds, &island));
    let second = (
        solver.system_ndofs(),
        solver.jacobian_sz(),
        solver.ground_jacobian_sz(),
        solver.joint_constraints().velocity.clone(),
        solver.contact_constraints().velocity.clone(),
        solver.internal_constraints().clone(),
        *bodies.body(a).unwrap(),
        *bodies.body(b).unwrap(),
    );
    assert_eq!(first, second);
    assert_eq!(first.0, 5);
    assert_eq!(first.1, 2 * 10 + 6 * 10);
    assert_eq!(first.2, 6);
}

#[test]
fn system_that_does_not_fit_is_left_alone() {
    let mut bodies = BodySlab::new();
    let a = bodies.add_body(&dynamic(3));
    let huge = bodies.add_body(&dynamic(usize::MAX / 4));
    let mut joints = Slab::new();
    joints.insert(joint(a, BodyHandle::ground(), 1));
    let mut solver = MoreauJeanSolver::new(RowsPerContact(1));
    assert!(solver.assemble_system(&mut bodies, &joints, &vec![], &vec![a]));
    bodies.body_mut(a).unwrap().set_companion_id(42);
    let manifolds = vec![manifold(huge, a, 2)];
    assert!(!solver.assemble_system(&mut bodies, &joints, &manifolds, &vec![a, huge]));
    assert_eq!(bodies.body(a).unwrap().companion_id(), 42);
    assert_eq!(bodies.body(huge).unwrap().companion_id(), 0);
    assert_eq!(solver.system_ndofs(), 3);
    assert_eq!(solver.ground_jacobian_sz(), 6);
    assert_eq!(solver.joint_constraints().len(), 1);
    assert!(solver.step(&mut bodies, &joints, &manifolds, &vec![a, huge], &params()).is_none());
    assert!(solver
        .step_ccd(&mut bodies, &joints, &manifolds, [a, huge], &vec![a, huge], &params())
        .is_none());
    let more = bodies.add_body(&dynamic(usize::MAX - 2));
    assert!(!solver.assemble_system(&mut bodies, &joints, &vec![], &vec![a, more]));
    assert_eq!(solver.system_ndofs(), 3);
}

#[test]
fn step_hands_out_the_schedule_of_an_ordinary_step() {
    let mut bodies = BodySlab::new();
    let a = bodies.add_body(&dynamic(3));
    let joints = Slab::new();
    let manifolds = vec![manifold(a, BodyHandle::ground(), 1)];
    let mut solver = MoreauJeanSolver::new(RowsPerContact(1));
    let schedule = solver.step(&mut bodies, &joints, &manifolds, &vec![a], &params()).unwrap();
    assert_eq!(
        schedule,
        vec![
            StepAction::Mark(StepStage::AssemblyStarted),
            StepAction::SetupConstraints,
            StepAction::Mark(StepStage::AssemblyCompleted),
            StepAction::Mark(StepStage::VelocityResolutionStarted),
            StepAction::SolveVelocityConstraints { max_iterations: 8 },
            StepAction::CacheImpulses,
            StepAction::Mark(StepStage::VelocityResolutionCompleted),
            StepAction::Mark(StepStage::VelocityUpdateStarted),
            StepAction::UpdateVelocitiesAndIntegrate,
            StepAction::Mark(StepStage::VelocityUpdateCompleted),
            StepAction::Mark(StepStage::PositionResolutionStarted),
            StepAction::SolvePositionConstraints { max_iterations: 3 },
            StepAction::Mark(StepStage::PositionResolutionCompleted),
        ]
    );
    assert_eq!(schedule, schedule_step(&params()));
    assert_eq!(solver.system_ndofs(), 3);
    assert_eq!(solver.ground_jacobian_sz(), 6);
    assert_eq!(solver.contact_constraints().len(), 1);
}

#[test]
fn ccd_step_validates_the_pair_between_the_two_solvers() {
    let mut bodies = BodySlab::new();
    let bullet = bodies.add_body(&dynamic(3));
    let wall = bodies.add_body(&BodyTemplate {
        ndofs: 3,
        status: BodyStatus::Static,
        active_internal_constraints: false,
    });
    let joints = Slab::new();
    let manifolds = vec![manifold(bullet, wall, 1)];
    let mut solver = MoreauJeanSolver::new(RowsPerContact(1));
    let schedule = solver
        .step_ccd(&mut bodies, &joints, &manifolds, [bullet, wall], &vec![bullet], &params())
        .unwrap();
    assert_eq!(
        schedule,
        vec![
            StepAction::SetupConstraints,
            StepAction::SolvePositionConstraints { max_iterations: 3 },
            StepAction::ValidateAdvancement { body: bullet },
            StepAction::ValidateAdvancement { body: wall },
            StepAction::SolveVelocityConstraints { max_iterations: 8 },
            StepAction::UpdateVelocitiesAndIntegrate,
        ]
    );
    assert_eq!(schedule, schedule_step_ccd(&params(), bullet, wall));
    assert_eq!(solver.system_ndofs(), 3);
    assert_eq!(solver.jacobian_sz(), 0);
    assert_eq!(solver.ground_jacobian_sz(), 6);
    let position = schedule
        .iter()
        .position(|a| matches!(a, StepAction::SolvePositionConstraints { .. }))
        .unwrap();
    let velocity = schedule
        .iter()
        .position(|a| matches!(a, StepAction::SolveVelocityConstraints { .. }))
        .unwrap();
    for body in [bullet, wall] {
        let validated = schedule
            .iter()
            .position(|a| *a == StepAction::ValidateAdvancement { body })
            .unwrap();
        assert!(position < validated && validated < velocity);
    }
}

#[test]
fn stages_follow_one_another() {
    let mut stage = StepStage::first();
    let mut passed = vec![stage];
    while let Some(next) = stage.next() {
        passed.push(next);
        stage = next;
    }
    assert_eq!(
        passed,
        vec![
            StepStage::AssemblyStarted,
            StepStage::AssemblyCompleted,
            StepStage::VelocityResolutionStarted,
            StepStage::VelocityResolutionCompleted,
            StepStage::VelocityUpdateStarted,
            StepStage::VelocityUpdateCompleted,
            StepStage::PositionResolutionStarted,
            StepStage::PositionResolutionCompleted,
        ]
    );
    let marks: Vec<StepStage> = schedule_step(&params())
        .iter()
        .filter_map(|a| match a {
            StepAction::Mark(s) => Some(*s),
            _ => None,
        })
        .collect();
    assert_eq!(marks, passed);
}

#[test]
fn velocity_slices_list_the_bodies_of_the_island() {
    let mut bodies = BodySlab::new();
    let a = bodies.add_body(&dynamic(3));
    let b = bodies.add_body(&dynamic(2));
    let gone = bodies.add_body(&dynamic(2));
    bodies.remove_body(gone);
    let joints = Slab::new();
    let island = vec![b, gone, a];
    let mut solver = MoreauJeanSolver::new(RowsPerContact(1));
    assert!(solver.assemble_system(&mut bodies, &joints, &vec![], &island));
    let slices = solver.update_velocities_and_integrate(&bodies, &island);
    assert_eq!(
        slices,
        vec![
            VelocitySlice { body: b, companion_id: 0, ndofs: 2 },
            VelocitySlice { body: a, companion_id: 2, ndofs: 3 },
        ]
    );
    for slice in &slices {
        assert!(slice.companion_id + slice.ndofs <= solver.system_ndofs());
    }
}

/// The numeric phases of a step for bodies that move along one axis, each
/// with one degree of freedom, and contacts with the ground along that axis.
struct Column {
    height: Vec<f64>,
    velocity: Vec<f64>,
}

impl Column {
    /// Runs the schedule of a step on the layout held by the solver: gravity
    /// as free velocity, one non-penetration row per contact solved by
    /// projected relaxation, then integration and a position correction.
    /// Returns the normal velocities after the velocity solver.
    fn run(
        &mut self,
        solver: &MoreauJeanSolver<RowsPerContact>,
        bodies: &BodySlab,
        island: &Vec<BodyHandle>,
        schedule: &[StepAction],
        dt: f64,
        gravity: f64,
        slop: f64,
    ) -> Vec<f64> {
        let slices = solver.update_velocities_and_integrate(bodies, island);
        let n = solver.system_ndofs();
        let mut ext_vels = vec![0.0; n];
        let mut correction = vec![0.0; n];
        let mut jacobians = vec![0.0; solver.jacobian_sz() + solver.ground_jacobian_sz()];
        let mut normal = Vec::new();
        for action in schedule {
            match action {
                StepAction::SetupConstraints => {
                    for s in &slices {
                        ext_vels[s.companion_id] = -gravity * dt;
                    }
                    for row in &solver.contact_constraints().velocity {
                        jacobians[row.j_id] = 1.0;
                        jacobians[row.j_id + row.ndofs1 + row.ndofs2] = 1.0;
                    }
                },
                StepAction::SolveVelocityConstraints { max_iterations } => {
                    for _ in 0..*max_iterations {
                        for row in &solver.contact_constraints().velocity {
                            let id = row.assembly_id1 + row.assembly_id2;
                            let j = jacobians[row.j_id];
                            let relative = j * (self.velocity[id] + ext_vels[id] + correction[id]);
                            correction[id] += f64::max(-relative, -correction[id]);
                        }
                    }
                    normal = slices
                        .iter()
                        .map(|s| {
                            self.velocity[s.companion_id]
                                + ext_vels[s.companion_id]
                                + correction[s.companion_id]
                        })
                        .collect();
                },
                StepAction::UpdateVelocitiesAndIntegrate => {
                    for s in &slices {
                        self.velocity[s.companion_id] +=
                            ext_vels[s.companion_id] + correction[s.companion_id];
                        self.height[s.companion_id] += dt * self.velocity[s.companion_id];
                    }
                },
                StepAction::SolvePositionConstraints { max_iterations } => {
                    for _ in 0..*max_iterations {
                        for row in &solver.contact_constraints().velocity {
                            let id = row.assembly_id1 + row.assembly_id2;
                            if self.height[id] < -slop {
                                self.height[id] = -slop;
                            }
                        }
                    }
                },
                _ => {},
            }
        }
        normal
    }
}

#[test]
fn box_resting_on_the_ground_stays_on_it() {
    let mut bodies = BodySlab::new();
    let cube = bodies.add_body(&dynamic(1));
    let joints = Slab::new();
    let manifolds = vec![manifold(cube, BodyHandle::ground(), 1)];
    let island = vec![cube];
    let mut solver = MoreauJeanSolver::new(RowsPerContact(1));
    let mut column = Column { height: vec![0.0], velocity: vec![0.0] };
    let slop = 0.001;
    for _ in 0..60 {
        let schedule = solver.step(&mut bodies, &joints, &manifolds, &island, &params()).unwrap();
        let normal =
            column.run(&solver, &bodies, &island, &schedule, 1.0 / 60.0, 9.81, slop);
        assert_eq!(normal.len(), 1);
        assert!(normal[0].abs() < 1.0e-9);
        assert!(column.height[0] >= -slop);
    }
    assert!(column.velocity[0].abs() < 1.0e-9);
    assert!(column.height[0].abs() <= slop);
}

#[test]
fn box_without_contact_falls_freely() {
    let mut bodies = BodySlab::new();
    let cube = bodies.add_body(&dynamic(1));
    let joints = Slab::new();
    let island = vec![cube];
    let mut solver = MoreauJeanSolver::new(RowsPerContact(1));
    let mut column = Column { height: vec![10.0], velocity: vec![0.0] };
    let schedule = solver.step(&mut bodies, &joints, &vec![], &island, &params()).unwrap();
    let normal = column.run(&solver, &bodies, &island, &schedule, 0.5, 9.81, 0.001);
    assert!((normal[0] + 4.905).abs() < 1.0e-12);
    assert!((column.velocity[0] + 4.905).abs() < 1.0e-12);
    assert!((column.height[0] - (10.0 - 2.4525)).abs() < 1.0e-12);
}

#[test]
fn impulses_are_kept_for_the_active_joints_in_key_order() {
    let mut bodies = BodySlab::new();
    let a = bodies.add_body(&dynamic(1));
    let b = bodies.add_body(&dynamic(1));
    let mut joints = Slab::new();
    let k0 = joints.insert(joint(a, b, 1));
    let k1 = joints.insert(JointConstraint { active: false, ..joint(a, b, 1) });
    let k2 = joints.insert(joint(b, a, 2));
    let k3 = joints.insert(joint(a, BodyHandle::ground(), 1));
    joints.remove(k2);
    let solver = MoreauJeanSolver::new(RowsPerContact(1));
    assert_eq!(solver.cache_impulses(&joints), vec![k0, k3]);
    joints.remove(k0);
    let k4 = joints.insert(joint(b, b, 1));
    let k5 = joints.insert(joint(b, b, 1));
    assert_eq!((k4, k5), (k0, k2));
    assert_eq!(solver.cache_impulses(&joints), vec![k0, k2, k3]);
    assert!(!solver.cache_impulses(&joints).contains(&k1));
    assert!(solver.cache_impulses(&Slab::new()).is_empty());
}

#[test]
fn coupling_lists_are_assembled_where_they_fit() {
    let mut bodies = BodySlab::new();
    let a = bodies.add_body(&dynamic(2));
    let b = bodies.add_body(&dynamic(1));
    let g = BodyHandle::ground();
    let coupling = |id, body1, body2, rows| Coupling {
        id,
        body1,
        body2,
        num_velocity_constraints: rows,
        active: true,
    };
    let joints = vec![coupling(4, a, b, 2)];
    let contacts = vec![coupling(0, g, a, 3)];
    let island = vec![a, b];
    let mut solver = MoreauJeanSolver::new(RowsPerContact(1));
    assert!(solver.try_assemble_couplings(&mut bodies, &joints, &contacts, &island));
    assert_eq!(solver.system_ndofs(), 3);
    assert_eq!(solver.jacobian_sz(), 2 * 2 * 3);
    assert_eq!(solver.ground_jacobian_sz(), 3 * 2 * 2);
    assert_eq!(bodies.body(b).unwrap().companion_id(), 2);
    assert_eq!(solver.joint_constraints().len(), 2);
    assert_eq!(solver.contact_constraints().velocity[2].j_id, 12 + 8);

    let huge = vec![coupling(1, a, b, usize::MAX / 2)];
    bodies.body_mut(b).unwrap().set_companion_id(9);
    assert!(!solver.try_assemble_couplings(&mut bodies, &joints, &huge, &island));
    assert_eq!(bodies.body(b).unwrap().companion_id(), 9);
    assert_eq!(solver.system_ndofs(), 3);
    assert_eq!(solver.jacobian_sz(), 12);
    assert_eq!(solver.contact_constraints().len(), 3);
}

#[test]
fn the_contact_model_is_asked_about_each_manifold() {
    let mut bodies = BodySlab::new();
    let a = bodies.add_body(&dynamic(1));
    let g = BodyHandle::ground();
    let manifolds = vec![manifold(a, g, 2), manifold(g, a, 0), manifold(a, g, 1)];
    let joints = Slab::new();
    let mut solver = MoreauJeanSolver::new(RowsPerContact(2));
    let schedule = solver.step(&mut bodies, &joints, &manifolds, &vec![a], &params());
    assert!(schedule.is_some());
    let ids: Vec<(usize, usize)> =
        solver.contact_constraints().velocity.iter().map(|r| (r.id, r.row)).collect();
    assert_eq!(ids, vec![(0, 0), (0, 1), (0, 2), (0, 3), (2, 0), (2, 1)]);
    assert_eq!(solver.ground_jacobian_sz(), 6 * 2);
}
