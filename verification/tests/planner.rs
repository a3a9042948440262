use makerpnp::planning::design::DesignName;
use makerpnp::planning::pcb_units::{apply_pcb_unit_configuration, PcbUnitConfigurationError, PcbUnits};
use makerpnp::planning::placement_update::{
    placement_update_actions, refresh_actions, PlacementOperationStatus, PlacementProgress, PlannerEventValue,
    RecordedPlacementOperation, SetOrClearAction, UpdatePlacementAction,
};
use makerpnp::planning::planner::{apply_project_event, PlannerError, PlannerModel, ProjectEvent};
use makerpnp::planning::project::{set_phase_ordering, Project};
use makerpnp::planning::reference::Reference;
use makerpnp::pnp::object_path::ObjectPath;
use makerpnp::sorted_map::SortedMap;
use makerpnp::views::{project_view_of_path, ProjectViewCommand};

fn reference(text: &str) -> Reference {
    Reference::new(text.to_string())
}

fn references(texts: &[&str]) -> Vec<Reference> {
    texts.iter().map(|t| reference(t)).collect()
}

fn names(refs: &Vec<Reference>) -> Vec<String> {
    refs.iter().map(|r| r.to_string()).collect()
}

#[test]
fn phase_ordering_keeps_first_occurrences() {
    let mut project = Project::new("job".to_string());
    let changed = set_phase_ordering(&mut project, &references(&["top", "bottom", "top"]));
    assert!(changed);
    assert_eq!(names(&project.phase_orderings), vec!["top".to_string(), "bottom".to_string()]);
}

#[test]
fn same_phase_ordering_changes_nothing() {
    let mut project = Project::new("job".to_string());
    set_phase_ordering(&mut project, &references(&["top", "bottom"]));
    let changed = set_phase_ordering(&mut project, &references(&["top", "bottom", "bottom"]));
    assert!(!changed);
    let changed = set_phase_ordering(&mut project, &references(&["bottom", "top"]));
    assert!(changed);
    assert_eq!(names(&project.phase_orderings), vec!["bottom".to_string(), "top".to_string()]);
}

fn pcb() -> PcbUnits {
    PcbUnits { units: 1, design_names: vec![DesignName::new("A".to_string())], unit_map: SortedMap::new(), modified: false }
}

fn designs(texts: &[&str]) -> Vec<DesignName> {
    texts.iter().map(|t| DesignName::new(t.to_string())).collect()
}

fn unit_map(entries: &[(u16, usize)]) -> SortedMap<u16, usize> {
    let mut m = SortedMap::new();
    for (k, v) in entries {
        m.insert(*k, *v);
    }
    m
}

#[test]
fn unit_configuration_is_applied() {
    let mut p = pcb();
    let r = apply_pcb_unit_configuration(&mut p, 4, designs(&["A", "B"]), unit_map(&[(0, 0), (3, 1)]));
    assert_eq!(r, Ok(()));
    assert_eq!(p.units, 4);
    assert_eq!(p.design_names.len(), 2);
    assert_eq!(p.unit_map.len(), 2);
    assert!(p.modified);
}

#[test]
fn repeated_designs_are_refused() {
    let mut p = pcb();
    let r = apply_pcb_unit_configuration(&mut p, 4, designs(&["A", "A"]), unit_map(&[(9, 0)]));
    assert_eq!(r, Err(PcbUnitConfigurationError::InvalidDesignSet));
    assert_eq!(p.units, 1);
    assert!(!p.modified);
}

#[test]
fn unit_index_out_of_range_is_refused() {
    let mut p = pcb();
    let r = apply_pcb_unit_configuration(&mut p, 2, designs(&["A", "B"]), unit_map(&[(0, 5), (2, 0)]));
    // the entries are checked in unit order, the unit index before the design index
    assert_eq!(r, Err(PcbUnitConfigurationError::DesignIndexOutOfRange { index: 5, min: 0, max: 1 }));
    let r = apply_pcb_unit_configuration(&mut p, 2, designs(&["A", "B"]), unit_map(&[(2, 0)]));
    assert_eq!(r, Err(PcbUnitConfigurationError::UnitIndexOutOfRange { index: 2, min: 0, max: 1 }));
    assert_eq!(p.units, 1);
    assert!(!p.modified);
}

fn path(text: &str) -> ObjectPath {
    ObjectPath::from_str(text).expect("always ok")
}

fn progress(phase: Option<&str>, status: PlacementOperationStatus) -> PlacementProgress {
    PlacementProgress { phase: phase.map(reference), operation_status: status }
}

fn action_names(actions: &Vec<UpdatePlacementAction>) -> Vec<String> {
    actions
        .iter()
        .map(|a| match a {
            UpdatePlacementAction::RefreshPhases => "phases".to_string(),
            UpdatePlacementAction::RefreshPhaseOverview { phase } => format!("overview {}", phase.to_string()),
            UpdatePlacementAction::RefreshPhasePlacements { phase } => format!("placements {}", phase.to_string()),
        })
        .collect()
}

#[test]
fn assigning_a_phase_sends_one_event() {
    let p = path("pcb=panel::unit=1::ref_des=R1");
    let steps = placement_update_actions(
        &p,
        &progress(Some("top"), PlacementOperationStatus::Pending),
        &progress(None, PlacementOperationStatus::Pending),
    );
    assert_eq!(steps.len(), 1);
    match &steps[0].event {
        PlannerEventValue::AssignPlacementsToPhase { phase, operation, placements } => {
            assert_eq!(phase.to_string(), "top");
            assert_eq!(*operation, SetOrClearAction::Assign);
            assert_eq!(placements, "^pcb=panel::unit=1::ref_des=R1$");
        },
        _ => panic!("expected a phase assignment"),
    }
    assert_eq!(action_names(&steps[0].actions), vec!["placements top", "overview top", "phases"]);
}

#[test]
fn changing_phase_and_status_sends_two_events() {
    let p = path("pcb=panel::unit=1::ref_des=R1.2");
    let steps = placement_update_actions(
        &p,
        &progress(Some("bottom"), PlacementOperationStatus::Placed),
        &progress(Some("top"), PlacementOperationStatus::Pending),
    );
    assert_eq!(steps.len(), 2);
    match &steps[1].event {
        PlannerEventValue::RecordPlacementsOperation { object_path_patterns, operation } => {
            assert_eq!(object_path_patterns, &vec!["^pcb=panel::unit=1::ref_des=R1\\.2$".to_string()]);
            assert_eq!(*operation, RecordedPlacementOperation::Place);
        },
        _ => panic!("expected an operation"),
    }
    assert_eq!(
        action_names(&steps[0].actions),
        vec!["placements bottom", "placements top", "overview bottom", "overview top", "phases"]
    );
    let all = refresh_actions(&steps, 2);
    assert_eq!(action_names(&all), vec![
        "placements bottom", "placements top", "overview bottom", "overview top", "phases",
        "overview bottom", "placements bottom", "phases",
    ]);
    let first_only = refresh_actions(&steps, 1);
    assert_eq!(action_names(&first_only).len(), 5);
}

#[test]
fn a_placement_without_phase_records_no_operation() {
    let p = path("pcb=panel::unit=1::ref_des=R1");
    let steps = placement_update_actions(
        &p,
        &progress(None, PlacementOperationStatus::Skipped),
        &progress(None, PlacementOperationStatus::Pending),
    );
    assert!(steps.is_empty());
    assert!(refresh_actions(&steps, 0).is_empty());
}

#[test]
fn navigation_paths_select_views() {
    assert!(matches!(project_view_of_path("/project/"), Some(ProjectViewCommand::ShowOverview)));
    assert!(matches!(project_view_of_path("/project/issues"), Some(ProjectViewCommand::ShowIssues)));
    assert!(matches!(project_view_of_path("/project/parts"), Some(ProjectViewCommand::ShowParts)));
    assert!(matches!(project_view_of_path("/project/pcbs/3"), Some(ProjectViewCommand::ShowPcb(3))));
    assert!(matches!(project_view_of_path("/project/pcbs/3/units"), Some(ProjectViewCommand::ShowPcbUnitAssignments(3))));
    assert!(matches!(project_view_of_path("/project/phases"), Some(ProjectViewCommand::RefreshPhases)));
    assert!(matches!(project_view_of_path("/project/placements"), Some(ProjectViewCommand::ShowPlacements)));
    match project_view_of_path("/project/phases/top") {
        Some(ProjectViewCommand::ShowPhase(r)) => assert_eq!(r.to_string(), "top"),
        _ => panic!("expected a phase"),
    }
    match project_view_of_path("/project/phases/top/loadout") {
        Some(ProjectViewCommand::ShowPhaseLoadout { phase }) => assert_eq!(phase.to_string(), "top"),
        _ => panic!("expected a phase load-out"),
    }
    match project_view_of_path("/project/processes/pnp") {
        Some(ProjectViewCommand::ShowProcess(r)) => assert_eq!(r.to_string(), "pnp"),
        _ => panic!("expected a process"),
    }
    assert!(project_view_of_path("/project/unknown").is_none());
    // a pcb path without an index selects nothing
    assert!(project_view_of_path("/project/pcbs/").is_none());
}

#[test]
fn events_need_an_open_project() {
    let mut model = PlannerModel { project: None, modified: false };
    let r = apply_project_event(&mut model, ProjectEvent::ResetOperations);
    assert_eq!(r, Err(PlannerError::OperationRequiresProject));
    assert!(!model.modified);
}

#[test]
fn phase_ordering_event_marks_a_change_only() {
    let mut model = PlannerModel { project: Some(Project::new("job".to_string())), modified: false };
    let r = apply_project_event(&mut model, ProjectEvent::SetPhaseOrdering { phases: references(&[]) });
    assert_eq!(r, Ok(()));
    assert!(!model.modified);
    let r = apply_project_event(&mut model, ProjectEvent::SetPhaseOrdering { phases: references(&["top"]) });
    assert_eq!(r, Ok(()));
    assert!(model.modified);
    let r = apply_project_event(&mut model, ProjectEvent::ResetOperations);
    assert_eq!(r, Ok(()));
    assert!(model.modified);
}
