//! The order in which the phases of a step run.
//!
//! The library does not run the numeric phases of a step itself: it hands the
//! host the list of what to run, in order, together with the boundaries at
//! which the host may take its timings.

use vstd::prelude::*;
use crate::object::handle::BodyHandle;
use crate::solver::constraint::IntegrationParameters;

verus! {

/// The boundaries between the phases of an ordinary step, in the order in
/// which a step passes them.
#[derive(Copy, Clone, Debug, PartialEq, Eq, Structural)]
pub enum StepStage {
    /// The system is about to be assembled.
    AssemblyStarted,
    /// The system is assembled.
    AssemblyCompleted,
    /// The velocity constraints are about to be solved.
    VelocityResolutionStarted,
    /// The velocity constraints are solved and the impulses cached.
    VelocityResolutionCompleted,
    /// The velocities are about to be updated.
    VelocityUpdateStarted,
    /// The velocities are updated and the bodies integrated.
    VelocityUpdateCompleted,
    /// The position constraints are about to be solved.
    PositionResolutionStarted,
    /// The position constraints are solved.
    PositionResolutionCompleted,
}

impl StepStage {
    /// The place of the stage in a step, counted from 0.
    pub open spec fn spec_index(self) -> nat {
        match self {
            StepStage::AssemblyStarted => 0,
            StepStage::AssemblyCompleted => 1,
            StepStage::VelocityResolutionStarted => 2,
            StepStage::VelocityResolutionCompleted => 3,
            StepStage::VelocityUpdateStarted => 4,
            StepStage::VelocityUpdateCompleted => 5,
            StepStage::PositionResolutionStarted => 6,
            StepStage::PositionResolutionCompleted => 7,
        }
    }

    /// The stage a step starts with.
    pub fn first() -> (s: StepStage)
        ensures
            s.spec_index() == 0,
    {
        StepStage::AssemblyStarted
    }

    /// The stage that follows this one, `None` after the last: a step passes
    /// its stages one by one, and none twice.
    pub fn next(self) -> (n: Option<StepStage>)
        ensures
            n is Some <==> self.spec_index() < 7,
            n is Some ==> n.unwrap().spec_index() == self.spec_index() + 1,
    {
        match self {
            StepStage::AssemblyStarted => Some(StepStage::AssemblyCompleted),
            StepStage::AssemblyCompleted => Some(StepStage::VelocityResolutionStarted),
            StepStage::VelocityResolutionStarted => Some(StepStage::VelocityResolutionCompleted),
            StepStage::VelocityResolutionCompleted => Some(StepStage::VelocityUpdateStarted),
            StepStage::VelocityUpdateStarted => Some(StepStage::VelocityUpdateCompleted),
            StepStage::VelocityUpdateCompleted => Some(StepStage::PositionResolutionStarted),
            StepStage::PositionResolutionStarted => Some(StepStage::PositionResolutionCompleted),
            StepStage::PositionResolutionCompleted => None,
        }
    }
}

/// One thing for the host to do in the course of a step.
#[derive(Copy, Clone, Debug, PartialEq, Eq, Structural)]
pub enum StepAction {
    /// A boundary between phases has been reached.
    Mark(StepStage),
    /// Fill the free velocities, the jacobian buffer and the constraint rows
    /// along the assembled layout, and set up the internal constraints.
    SetupConstraints,
    /// Run the velocity solver for the given number of passes.
    SolveVelocityConstraints {
        /// The number of passes.
        max_iterations: usize,
    },
    /// Keep the solved impulses for the next step.
    CacheImpulses,
    /// Add the free velocities and the corrections to the velocities of the
    /// bodies of the island, and integrate their positions.
    UpdateVelocitiesAndIntegrate,
    /// Run the position solver for the given number of passes.
    SolvePositionConstraints {
        /// The number of passes.
        max_iterations: usize,
    },
    /// Tell the body that its advancement is free of collisions.
    ValidateAdvancement {
        /// The body to tell.
        body: BodyHandle,
    },
}

/// What an ordinary step runs, in order: assembly, the velocity solver and
/// the caching of impulses, the update of the velocities, the position
/// solver; each phase between its two boundaries.
pub open spec fn ordinary_schedule(params: IntegrationParameters) -> Seq<StepAction> {
    seq![
        StepAction::Mark(StepStage::AssemblyStarted),
        StepAction::SetupConstraints,
        StepAction::Mark(StepStage::AssemblyCompleted),
        StepAction::Mark(StepStage::VelocityResolutionStarted),
        StepAction::SolveVelocityConstraints { max_iterations: params.max_velocity_iterations },
        StepAction::CacheImpulses,
        StepAction::Mark(StepStage::VelocityResolutionCompleted),
        StepAction::Mark(StepStage::VelocityUpdateStarted),
        StepAction::UpdateVelocitiesAndIntegrate,
        StepAction::Mark(StepStage::VelocityUpdateCompleted),
        StepAction::Mark(StepStage::PositionResolutionStarted),
        StepAction::SolvePositionConstraints { max_iterations: params.max_position_iterations },
        StepAction::Mark(StepStage::PositionResolutionCompleted),
    ]
}

/// What a sub-step of continuous collision detection runs, in order:
/// assembly, the position solver, the validation of the two bodies of the
/// pair, and only then the velocity solver and the update of the velocities.
pub open spec fn ccd_schedule(
    params: IntegrationParameters,
    body1: BodyHandle,
    body2: BodyHandle,
) -> Seq<StepAction> {
    seq![
        StepAction::SetupConstraints,
        StepAction::SolvePositionConstraints { max_iterations: params.max_position_iterations },
        StepAction::ValidateAdvancement { body: body1 },
        StepAction::ValidateAdvancement { body: body2 },
        StepAction::SolveVelocityConstraints { max_iterations: params.max_velocity_iterations },
        StepAction::UpdateVelocitiesAndIntegrate,
    ]
}

/// Writes down what an ordinary step runs, in order.
pub fn schedule_step(params: &IntegrationParameters) -> (actions: Vec<StepAction>)
    ensures
        actions@ == ordinary_schedule(*params),
{
    let mut actions: Vec<StepAction> = Vec::new();
    actions.push(StepAction::Mark(StepStage::AssemblyStarted));
    actions.push(StepAction::SetupConstraints);
    actions.push(StepAction::Mark(StepStage::AssemblyCompleted));
    actions.push(StepAction::Mark(StepStage::VelocityResolutionStarted));
    actions.push(
        StepAction::SolveVelocityConstraints { max_iterations: params.max_velocity_iterations },
    );
    actions.push(StepAction::CacheImpulses);
    actions.push(StepAction::Mark(StepStage::VelocityResolutionCompleted));
    actions.push(StepAction::Mark(StepStage::VelocityUpdateStarted));
    actions.push(StepAction::UpdateVelocitiesAndIntegrate);
    actions.push(StepAction::Mark(StepStage::VelocityUpdateCompleted));
    actions.push(StepAction::Mark(StepStage::PositionResolutionStarted));
    actions.push(
        StepAction::SolvePositionConstraints { max_iterations: params.max_position_iterations },
    );
    actions.push(StepAction::Mark(StepStage::PositionResolutionCompleted));
    assert(actions@ =~= ordinary_schedule(*params));
    actions
}

/// Writes down what a sub-step of continuous collision detection on the
/// given pair of bodies runs, in order.
pub fn schedule_step_ccd(
    params: &IntegrationParameters,
    body1: BodyHandle,
    body2: BodyHandle,
) -> (actions: Vec<StepAction>)
    ensures
        actions@ == ccd_schedule(*params, body1, body2),
{
    let mut actions: Vec<StepAction> = Vec::new();
    actions.push(StepAction::SetupConstraints);
    actions.push(
        StepAction::SolvePositionConstraints { max_iterations: params.max_position_iterations },
    );
    actions.push(StepAction::ValidateAdvancement { body: body1 });
    actions.push(StepAction::ValidateAdvancement { body: body2 });
    actions.push(
        StepAction::SolveVelocityConstraints { max_iterations: params.max_velocity_iterations },
    );
    actions.push(StepAction::UpdateVelocitiesAndIntegrate);
    assert(actions@ =~= ccd_schedule(*params, body1, body2));
    actions
}

/// The marks of an ordinary step are its stages, each once and in order.
pub proof fn lemma_ordinary_schedule_passes_stages_in_order(params: IntegrationParameters)
    ensures
        forall|i: int, j: int|
            0 <= i < j < ordinary_schedule(params).len() && ordinary_schedule(params)[i] is Mark
                && ordinary_schedule(params)[j] is Mark ==> ordinary_schedule(
                params,
            )[i]->Mark_0.spec_index() < ordinary_schedule(params)[j]->Mark_0.spec_index(),
        forall|s: StepStage| ordinary_schedule(params).contains(StepAction::Mark(s)),
{
    let plan = ordinary_schedule(params);
    assert forall|s: StepStage| plan.contains(StepAction::Mark(s)) by {
        match s {
            StepStage::AssemblyStarted => assert(plan[0] == StepAction::Mark(s)),
            StepStage::AssemblyCompleted => assert(plan[2] == StepAction::Mark(s)),
            StepStage::VelocityResolutionStarted => assert(plan[3] == StepAction::Mark(s)),
            StepStage::VelocityResolutionCompleted => assert(plan[6] == StepAction::Mark(s)),
            StepStage::VelocityUpdateStarted => assert(plan[7] == StepAction::Mark(s)),
            StepStage::VelocityUpdateCompleted => assert(plan[9] == StepAction::Mark(s)),
            StepStage::PositionResolutionStarted => assert(plan[10] == StepAction::Mark(s)),
            StepStage::PositionResolutionCompleted => assert(plan[12] == StepAction::Mark(s)),
        }
    }
}

} // verus!
