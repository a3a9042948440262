//! What changing a placement in the planner's placement table asks of the
//! planner: the events to send for a change of phase or of operation status,
//! and the views to refresh once the planner accepted them.
use vstd::prelude::*;
use crate::planning::reference::Reference;
use crate::pnp::object_path::{ObjectPath, format_path};
use crate::pattern::{exact_match_text, escaped_text};

verus! {

/// How far the operation on a placement has come.
#[derive(Debug, Clone, Copy, PartialEq, Eq, Structural)]
pub enum PlacementOperationStatus {
    Pending,
    Placed,
    Skipped,
}

/// The parts of a placement's state that an edit of the placement table changes:
/// its phase and its operation status.
#[derive(Debug)]
pub struct PlacementProgress {
    pub phase: Option<Reference>,
    pub operation_status: PlacementOperationStatus,
}

/// Whether placements are added to a phase or taken out of it.
#[derive(Debug, Clone, Copy, PartialEq, Eq, Structural)]
pub enum SetOrClearAction {
    Assign,
    Clear,
}

/// An operation recorded on placements.
#[derive(Debug, Clone, Copy, PartialEq, Eq, Structural)]
pub enum RecordedPlacementOperation {
    Place,
    Skip,
    Reset,
}

/// An event for the planner. Placements are selected by pattern texts.
#[derive(Debug)]
pub enum PlannerEventValue {
    AssignPlacementsToPhase { phase: Reference, operation: SetOrClearAction, placements: String },
    RecordPlacementsOperation { object_path_patterns: Vec<String>, operation: RecordedPlacementOperation },
}

/// A view to refresh after a placement changed.
#[derive(Debug)]
pub enum UpdatePlacementAction {
    RefreshPhases,
    RefreshPhaseOverview { phase: Reference },
    RefreshPhasePlacements { phase: Reference },
}

/// An event to send, with the views to refresh once the planner accepts it.
#[derive(Debug)]
pub struct PlacementUpdateStep {
    pub event: PlannerEventValue,
    pub actions: Vec<UpdatePlacementAction>,
}

/// The abstract value of an event.
pub enum PlannerEventView {
    AssignPlacementsToPhase { phase: Seq<char>, operation: SetOrClearAction, placements: Seq<char> },
    RecordPlacementsOperation { object_path_patterns: Seq<Seq<char>>, operation: RecordedPlacementOperation },
}

/// The abstract value of a refresh action.
pub enum UpdatePlacementActionView {
    RefreshPhases,
    RefreshPhaseOverview(Seq<char>),
    RefreshPhasePlacements(Seq<char>),
}

impl View for PlannerEventValue {
    type V = PlannerEventView;

    open spec fn view(&self) -> PlannerEventView {
        match self {
            PlannerEventValue::AssignPlacementsToPhase { phase, operation, placements } =>
                PlannerEventView::AssignPlacementsToPhase { phase: phase@, operation: *operation, placements: placements@ },
            PlannerEventValue::RecordPlacementsOperation { object_path_patterns, operation } =>
                PlannerEventView::RecordPlacementsOperation {
                    object_path_patterns: object_path_patterns@.map_values(|p: String| p@),
                    operation: *operation,
                },
        }
    }
}

impl View for UpdatePlacementAction {
    type V = UpdatePlacementActionView;

    open spec fn view(&self) -> UpdatePlacementActionView {
        match self {
            UpdatePlacementAction::RefreshPhases => UpdatePlacementActionView::RefreshPhases,
            UpdatePlacementAction::RefreshPhaseOverview { phase } => UpdatePlacementActionView::RefreshPhaseOverview(phase@),
            UpdatePlacementAction::RefreshPhasePlacements { phase } => UpdatePlacementActionView::RefreshPhasePlacements(phase@),
        }
    }
}

/// The refresh actions, as their abstract values.
pub open spec fn action_views(s: Seq<UpdatePlacementAction>) -> Seq<UpdatePlacementActionView> {
    s.map_values(|a: UpdatePlacementAction| a@)
}

/// The steps, as pairs of an event and its refresh actions.
pub open spec fn step_views(s: Seq<PlacementUpdateStep>) -> Seq<(PlannerEventView, Seq<UpdatePlacementActionView>)> {
    s.map_values(|st: PlacementUpdateStep| (st.event@, action_views(st.actions@)))
}

/// The phase of a placement, as text.
pub open spec fn phase_view(p: Option<Reference>) -> Option<Seq<char>> {
    match p {
        Some(r) => Some(r@),
        None => None,
    }
}

/// The pattern that selects exactly the placement at the path.
pub open spec fn exact_path_pattern(path: Seq<(Seq<char>, Seq<char>)>) -> Seq<char> {
    "^"@ + escaped_text(format_path(path)) + "$"@
}

/// The operation recorded for an operation status.
pub open spec fn recorded_operation(s: PlacementOperationStatus) -> RecordedPlacementOperation {
    match s {
        PlacementOperationStatus::Placed => RecordedPlacementOperation::Place,
        PlacementOperationStatus::Skipped => RecordedPlacementOperation::Skip,
        PlacementOperationStatus::Pending => RecordedPlacementOperation::Reset,
    }
}

/// The step for a change of phase: the placement is set into its new phase, or
/// cleared out of its old one where it has none now; the placements and
/// overviews of the phases involved (new before old) and the phase list are
/// refreshed. No step where the phase is unchanged.
pub open spec fn phase_change_steps(
    pattern: Seq<char>,
    new_phase: Option<Seq<char>>,
    old_phase: Option<Seq<char>>,
) -> Seq<(PlannerEventView, Seq<UpdatePlacementActionView>)> {
    if new_phase == old_phase {
        seq![]
    } else {
        match (new_phase, old_phase) {
            (Some(n), None) => seq![(
                PlannerEventView::AssignPlacementsToPhase { phase: n, operation: SetOrClearAction::Assign, placements: pattern },
                seq![
                    UpdatePlacementActionView::RefreshPhasePlacements(n),
                    UpdatePlacementActionView::RefreshPhaseOverview(n),
                    UpdatePlacementActionView::RefreshPhases,
                ],
            )],
            (Some(n), Some(o)) => seq![(
                PlannerEventView::AssignPlacementsToPhase { phase: n, operation: SetOrClearAction::Assign, placements: pattern },
                seq![
                    UpdatePlacementActionView::RefreshPhasePlacements(n),
                    UpdatePlacementActionView::RefreshPhasePlacements(o),
                    UpdatePlacementActionView::RefreshPhaseOverview(n),
                    UpdatePlacementActionView::RefreshPhaseOverview(o),
                    UpdatePlacementActionView::RefreshPhases,
                ],
            )],
            (None, Some(o)) => seq![(
                PlannerEventView::AssignPlacementsToPhase { phase: o, operation: SetOrClearAction::Clear, placements: pattern },
                seq![
                    UpdatePlacementActionView::RefreshPhasePlacements(o),
                    UpdatePlacementActionView::RefreshPhaseOverview(o),
                    UpdatePlacementActionView::RefreshPhases,
                ],
            )],
            (None, None) => seq![],
        }
    }
}

/// The step for a change of operation status of a placement that has a phase:
/// the new status is recorded, and the phase's overview and placements and the
/// phase list are refreshed. No step where the placement has no phase (it cannot
/// be placed) or its status is unchanged.
pub open spec fn status_change_steps(
    pattern: Seq<char>,
    new_phase: Option<Seq<char>>,
    new_status: PlacementOperationStatus,
    old_status: PlacementOperationStatus,
) -> Seq<(PlannerEventView, Seq<UpdatePlacementActionView>)> {
    match new_phase {
        None => seq![],
        Some(p) => if new_status == old_status {
            seq![]
        } else {
            seq![(
                PlannerEventView::RecordPlacementsOperation {
                    object_path_patterns: seq![pattern],
                    operation: recorded_operation(new_status),
                },
                seq![
                    UpdatePlacementActionView::RefreshPhaseOverview(p),
                    UpdatePlacementActionView::RefreshPhasePlacements(p),
                    UpdatePlacementActionView::RefreshPhases,
                ],
            )]
        },
    }
}

/// The steps of a placement's change: that of its phase, then that of its
/// operation status.
pub open spec fn placement_update_steps(
    path: Seq<(Seq<char>, Seq<char>)>,
    new: PlacementProgress,
    old: PlacementProgress,
) -> Seq<(PlannerEventView, Seq<UpdatePlacementActionView>)> {
    let pattern = exact_path_pattern(path);
    phase_change_steps(pattern, phase_view(new.phase), phase_view(old.phase))
        + status_change_steps(pattern, phase_view(new.phase), new.operation_status, old.operation_status)
}

fn copy_phase(p: &Option<Reference>) -> (r: Option<Reference>)
    ensures
        phase_view(r) == phase_view(*p),
{
    match p {
        Some(r) => Some(r.copy()),
        None => None,
    }
}

fn same_phase(a: &Option<Reference>, b: &Option<Reference>) -> (r: bool)
    ensures
        r == (phase_view(*a) == phase_view(*b)),
{
    match (a, b) {
        (Some(x), Some(y)) => x.equals(y),
        (None, None) => true,
        _ => false,
    }
}

/// The events that a change of the placement at `path` from `old` to `new` asks
/// the planner for, each with the views to refresh once it is accepted, in the
/// order they are sent: the change of phase first, then that of the operation
/// status. Each selects the placement by the pattern that matches its path
/// exactly.
pub fn placement_update_actions(path: &ObjectPath, new: &PlacementProgress, old: &PlacementProgress) -> (r: Vec<PlacementUpdateStep>)
    ensures
        step_views(r@) == placement_update_steps(path@, *new, *old),
{
    let path_text = path.to_string();
    let pattern = exact_match_text(path_text.as_str());
    let ghost pv = pattern@;
    assert(pv == exact_path_pattern(path@));
    let mut steps: Vec<PlacementUpdateStep> = Vec::new();
    if !same_phase(&new.phase, &old.phase) {
        let step = match (&new.phase, &old.phase) {
            (Some(n), None) => PlacementUpdateStep {
                event: PlannerEventValue::AssignPlacementsToPhase { phase: n.copy(), operation: SetOrClearAction::Assign, placements: pattern.clone() },
                actions: vec![
                    UpdatePlacementAction::RefreshPhasePlacements { phase: n.copy() },
                    UpdatePlacementAction::RefreshPhaseOverview { phase: n.copy() },
                    UpdatePlacementAction::RefreshPhases,
                ],
            },
            (Some(n), Some(o)) => PlacementUpdateStep {
                event: PlannerEventValue::AssignPlacementsToPhase { phase: n.copy(), operation: SetOrClearAction::Assign, placements: pattern.clone() },
                actions: vec![
                    UpdatePlacementAction::RefreshPhasePlacements { phase: n.copy() },
                    UpdatePlacementAction::RefreshPhasePlacements { phase: o.copy() },
                    UpdatePlacementAction::RefreshPhaseOverview { phase: n.copy() },
                    UpdatePlacementAction::RefreshPhaseOverview { phase: o.copy() },
                    UpdatePlacementAction::RefreshPhases,
                ],
            },
            (None, Some(o)) => PlacementUpdateStep {
                event: PlannerEventValue::AssignPlacementsToPhase { phase: o.copy(), operation: SetOrClearAction::Clear, placements: pattern.clone() },
                actions: vec![
                    UpdatePlacementAction::RefreshPhasePlacements { phase: o.copy() },
                    UpdatePlacementAction::RefreshPhaseOverview { phase: o.copy() },
                    UpdatePlacementAction::RefreshPhases,
                ],
            },
            (None, None) => {
                proof {
                    assert(false);
                }
                PlacementUpdateStep { event: PlannerEventValue::RecordPlacementsOperation { object_path_patterns: Vec::new(), operation: RecordedPlacementOperation::Reset }, actions: Vec::new() }
            },
        };
        let ghost sv = (step.event@, action_views(step.actions@));
        proof {
            match (phase_view(new.phase), phase_view(old.phase)) {
                (Some(n), None) => {
                    assert(action_views(step.actions@) =~= phase_change_steps(pv, phase_view(new.phase), phase_view(old.phase))[0].1);
                },
                (Some(n), Some(o)) => {
                    assert(action_views(step.actions@) =~= phase_change_steps(pv, phase_view(new.phase), phase_view(old.phase))[0].1);
                },
                (None, Some(o)) => {
                    assert(action_views(step.actions@) =~= phase_change_steps(pv, phase_view(new.phase), phase_view(old.phase))[0].1);
                },
                (None, None) => {},
            }
            assert(sv == phase_change_steps(pv, phase_view(new.phase), phase_view(old.phase))[0]);
        }
        steps.push(step);
        proof {
            assert(step_views(steps@) =~= seq![sv]);
        }
    }
    let ghost first = steps@;
    assert(step_views(first) =~= phase_change_steps(pv, phase_view(new.phase), phase_view(old.phase)));
    match &new.phase {
        Some(p) => {
            if new.operation_status != old.operation_status {
                let operation = match new.operation_status {
                    PlacementOperationStatus::Placed => RecordedPlacementOperation::Place,
                    PlacementOperationStatus::Skipped => RecordedPlacementOperation::Skip,
                    PlacementOperationStatus::Pending => RecordedPlacementOperation::Reset,
                };
                let step = PlacementUpdateStep {
                    event: PlannerEventValue::RecordPlacementsOperation { object_path_patterns: vec![pattern.clone()], operation },
                    actions: vec![
                        UpdatePlacementAction::RefreshPhaseOverview { phase: p.copy() },
                        UpdatePlacementAction::RefreshPhasePlacements { phase: p.copy() },
                        UpdatePlacementAction::RefreshPhases,
                    ],
                };
                let ghost sv = (step.event@, action_views(step.actions@));
                proof {
                    assert(action_views(step.actions@) =~= status_change_steps(pv, phase_view(new.phase), new.operation_status, old.operation_status)[0].1);
                    match &step.event {
                        PlannerEventValue::RecordPlacementsOperation { object_path_patterns, .. } => {
                            assert(object_path_patterns@.map_values(|q: String| q@) =~= seq![pv]);
                        },
                        _ => {},
                    }
                    assert(sv == status_change_steps(pv, phase_view(new.phase), new.operation_status, old.operation_status)[0]);
                }
                let ghost prior = steps@;
                steps.push(step);
                proof {
                    assert(step_views(steps@) =~= step_views(prior).push(sv));
                }
            }
        },
        None => {},
    }
    assert(step_views(steps@) =~= step_views(first) + status_change_steps(pv, phase_view(new.phase), new.operation_status, old.operation_status));
    steps
}

/// The actions in order, with each run of equal consecutive actions kept once
/// (`Vec::dedup`).
pub open spec fn dedup_consecutive(s: Seq<UpdatePlacementActionView>) -> Seq<UpdatePlacementActionView>
    decreases s.len(),
{
    if s.len() == 0 {
        s
    } else {
        let d = dedup_consecutive(s.drop_last());
        if d.len() > 0 && d.last() == s.last() {
            d
        } else {
            d.push(s.last())
        }
    }
}

/// The refresh actions of the steps, in order.
pub open spec fn steps_actions(s: Seq<(PlannerEventView, Seq<UpdatePlacementActionView>)>) -> Seq<UpdatePlacementActionView>
    decreases s.len(),
{
    if s.len() == 0 {
        seq![]
    } else {
        steps_actions(s.drop_last()) + s.last().1
    }
}

fn copy_action(a: &UpdatePlacementAction) -> (r: UpdatePlacementAction)
    ensures
        r@ == a@,
{
    match a {
        UpdatePlacementAction::RefreshPhases => UpdatePlacementAction::RefreshPhases,
        UpdatePlacementAction::RefreshPhaseOverview { phase } => UpdatePlacementAction::RefreshPhaseOverview { phase: phase.copy() },
        UpdatePlacementAction::RefreshPhasePlacements { phase } => UpdatePlacementAction::RefreshPhasePlacements { phase: phase.copy() },
    }
}

fn same_action(a: &UpdatePlacementAction, b: &UpdatePlacementAction) -> (r: bool)
    ensures
        r == (a@ == b@),
{
    match (a, b) {
        (UpdatePlacementAction::RefreshPhases, UpdatePlacementAction::RefreshPhases) => true,
        (UpdatePlacementAction::RefreshPhaseOverview { phase: x }, UpdatePlacementAction::RefreshPhaseOverview { phase: y }) => x.equals(y),
        (UpdatePlacementAction::RefreshPhasePlacements { phase: x }, UpdatePlacementAction::RefreshPhasePlacements { phase: y }) => x.equals(y),
        _ => false,
    }
}

/// The views to refresh once the planner accepted the first `accepted` steps
/// (the steps after a refused one are not sent): their actions in order, each
/// run of equal consecutive actions kept once.
pub fn refresh_actions(steps: &Vec<PlacementUpdateStep>, accepted: usize) -> (r: Vec<UpdatePlacementAction>)
    requires
        accepted <= steps@.len(),
    ensures
        action_views(r@) == dedup_consecutive(steps_actions(step_views(steps@).take(accepted as int))),
{
    let ghost sv = step_views(steps@);
    let mut out: Vec<UpdatePlacementAction> = Vec::new();
    let ghost mut all: Seq<UpdatePlacementActionView> = seq![];
    let mut i: usize = 0;
    proof {
        assert(sv.take(0) =~= seq![]);
    }
    while i < accepted
        invariant
            accepted <= steps@.len(),
            sv == step_views(steps@),
            i <= accepted,
            all == steps_actions(sv.take(i as int)),
            action_views(out@) == dedup_consecutive(all),
        decreases accepted - i,
    {
        let actions = &steps[i].actions;
        proof {
            assert(sv.take(i + 1).drop_last() =~= sv.take(i as int));
            assert(sv.take(i + 1).last().1 == action_views(actions@));
        }
        let ghost before = all;
        let mut k: usize = 0;
        while k < actions.len()
            invariant
                k <= actions@.len(),
                all == before + action_views(actions@).take(k as int),
                action_views(out@) == dedup_consecutive(all),
            decreases actions@.len() - k,
        {
            let a = &actions[k];
            proof {
                assert(before + action_views(actions@).take(k + 1) =~= (before + action_views(actions@).take(k as int)).push(a@));
                all = all.push(a@);
                assert(all.drop_last() =~= before + action_views(actions@).take(k as int));
            }
            let n = out.len();
            if n > 0 && same_action(&out[n - 1], a) {
                proof {
                    assert(action_views(out@).last() == out@[n - 1]@);
                }
            } else {
                let ghost prior = out@;
                out.push(copy_action(a));
                proof {
                    assert(action_views(out@) =~= action_views(prior).push(a@));
                    if n > 0 {
                        assert(action_views(prior).last() == prior[n - 1]@);
                    }
                }
            }
            k = k + 1;
        }
        proof {
            assert(action_views(actions@).take(actions@.len() as int) =~= action_views(actions@));
        }
        i = i + 1;
    }
    out
}

} // verus!
