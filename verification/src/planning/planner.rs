//! The planner's handling of events that work on the open project alone: an
//! event needs an open project, and marks the project as changed where it
//! changed it.
use vstd::prelude::*;
use crate::planning::project::{Project, set_phase_ordering, reset_operations, operations_reset, reference_views, dedup_first};
use crate::planning::reference::Reference;

verus! {

/// The planner's state: the open project, if any, and whether it changed since
/// it was loaded or saved.
pub struct PlannerModel {
    pub project: Option<Project>,
    pub modified: bool,
}

/// Why the planner refused an event.
#[derive(Debug, Clone, Copy, PartialEq, Eq, Structural)]
pub enum PlannerError {
    /// The event needs an open project.
    OperationRequiresProject,
}

/// An event that works on the open project alone.
pub enum ProjectEvent {
    /// Sets the order of the phases.
    SetPhaseOrdering { phases: Vec<Reference> },
    /// Resets the operations of all phases and placements.
    ResetOperations,
}

/// The open project is well formed, where there is one.
pub open spec fn model_wf(model: PlannerModel) -> bool {
    model.project matches Some(p) ==> p.wf()
}

/// Handles an event on the open project. Without one it is refused with
/// `OperationRequiresProject` and nothing changes. Setting the phase order marks
/// the project changed where the order changed; resetting the operations always
/// does.
pub fn apply_project_event(model: &mut PlannerModel, event: ProjectEvent) -> (r: Result<(), PlannerError>)
    requires
        model_wf(*old(model)),
    ensures
        model_wf(*final(model)),
        old(model).project is None ==> r == Err::<(), PlannerError>(PlannerError::OperationRequiresProject) && *final(model) == *old(model),
        old(model).project matches Some(p) ==> {
            &&& r is Ok
            &&& final(model).project matches Some(q) && match event {
                ProjectEvent::SetPhaseOrdering { phases } => {
                    &&& q == (Project { phase_orderings: q.phase_orderings, ..p })
                    &&& reference_views(q.phase_orderings@) == dedup_first(reference_views(phases@))
                    &&& final(model).modified == (old(model).modified || reference_views(p.phase_orderings@) != reference_views(q.phase_orderings@))
                },
                ProjectEvent::ResetOperations => {
                    &&& operations_reset(p, q)
                    &&& final(model).modified
                },
            }
        },
{
    match model.project.take() {
        None => Err(PlannerError::OperationRequiresProject),
        Some(mut project) => {
            match event {
                ProjectEvent::SetPhaseOrdering { phases } => {
                    let changed = set_phase_ordering(&mut project, &phases);
                    model.modified = model.modified || changed;
                },
                ProjectEvent::ResetOperations => {
                    reset_operations(&mut project);
                    model.modified = true;
                },
            }
            model.project = Some(project);
            Ok(())
        },
    }
}

} // verus!
