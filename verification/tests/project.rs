use makerpnp::pattern::Pattern;
use makerpnp::planning::artifacts::{feeder_reference_for, generate_phase_artifacts};
use makerpnp::planning::load_out::{add_parts_to_load_out, assign_feeder_to_load_out_item, FeederAssignmentError};
use makerpnp::planning::operation_history::OperationHistoryKind;
use makerpnp::planning::pcb::PcbSide;
use makerpnp::planning::placement::{
    PlacementOperation, PlacementSortingItem, PlacementSortingMode, PlacementState, PlacementStatus,
};
use makerpnp::planning::process::{ProcessName, ProcessOperationKind, ProcessOperationSetItem, ProcessOperationState};
use makerpnp::planning::project::{
    assign_placements_to_phase, build_history_operation_kind, build_project_file_path, refresh_parts, reset_operations,
    update_phase_operation, update_placements_operation, ProcessFactory, Project,
};
use makerpnp::planning::reference::Reference;
use makerpnp::planning::report::{IssueKind, IssueSeverity, ProjectReportIssue};
use makerpnp::planning::{LoadOutSource, SortOrder};
use makerpnp::pnp::decimal::DecimalValue;
use makerpnp::pnp::load_out_item::LoadOutItem;
use makerpnp::pnp::object_path::ObjectPath;
use makerpnp::pnp::part::Part;
use makerpnp::pnp::placement::Placement;
use makerpnp::sorted_map::SortedMap;

fn path(text: &str) -> ObjectPath {
    ObjectPath::from_str(text).unwrap()
}

fn placement_state(unit: &str, ref_des: &str, mfr: &str, mpn: &str, phase: Option<&str>) -> PlacementState {
    PlacementState {
        unit_path: path(unit),
        placement: Placement {
            ref_des: ref_des.to_string(),
            part: Part::new(mfr.to_string(), mpn.to_string()),
            place: true,
            pcb_side: PcbSide::Top,
            x: DecimalValue::new(false, 105, 1),
            y: DecimalValue::new(true, 2, 0),
            rotation: DecimalValue::new(false, 90, 0),
        },
        placed: false,
        status: PlacementStatus::Known,
        phase: phase.map(|p| Reference::new(p.to_string())),
    }
}

fn project_with_phase() -> Project {
    let mut project = Project::new("job1".to_string());
    project
        .update_phase(
            Reference::new("top_1".to_string()),
            ProcessName::new("pnp".to_string()),
            LoadOutSource::new("load_out_1".to_string()),
            PcbSide::Top,
        )
        .unwrap();
    project
}

fn item(reference: &str, mfr: &str, mpn: &str) -> LoadOutItem {
    LoadOutItem::new(reference.to_string(), mfr.to_string(), mpn.to_string())
}

#[test]
fn process_factory_names_pnp_and_manual() {
    let pnp = ProcessFactory::by_name("pnp").unwrap();
    assert_eq!(pnp.name.as_str(), "pnp");
    assert_eq!(
        pnp.operations,
        vec![ProcessOperationKind::LoadPcbs, ProcessOperationKind::AutomatedPnp, ProcessOperationKind::ReflowComponents]
    );
    let manual = ProcessFactory::by_name("manual").unwrap();
    assert_eq!(manual.operations, vec![ProcessOperationKind::LoadPcbs, ProcessOperationKind::ManuallySolderComponents]);
    assert!(ProcessFactory::by_name("unknown").is_err());
}

#[test]
fn new_project_has_the_default_processes() {
    let project = Project::new("job1".to_string());
    assert_eq!(project.name, "job1");
    let names: Vec<&str> = project.processes.iter().map(|p| p.name.as_str()).collect();
    assert_eq!(names, vec!["pnp", "manual"]);
    assert_eq!(project.phase_orderings.len(), 0);
}

#[test]
fn update_phase_with_unknown_process_is_refused() {
    let mut project = Project::new("job1".to_string());
    let result = project.update_phase(
        Reference::new("top_1".to_string()),
        ProcessName::new("unknown".to_string()),
        LoadOutSource::new("load_out_1".to_string()),
        PcbSide::Top,
    );
    assert!(result.is_err());
    // the phase is created before its process is looked up; it gets no state
    assert_eq!(project.phase_orderings.len(), 1);
    assert!(project.phase_states.get(&Reference::new("top_1".to_string())).is_none());
}

#[test]
fn update_phase_orders_phases_and_sets_their_state() {
    let project = project_with_phase();
    assert_eq!(project.phase_orderings, vec![Reference::new("top_1".to_string())]);
    let state = project.phase_states.get(&Reference::new("top_1".to_string())).unwrap();
    assert_eq!(state.operation_state.len(), 3);
}

#[test]
fn update_phase_operation_marks_the_operation_completed() {
    let mut project = project_with_phase();
    let reference = Reference::new("top_1".to_string());
    let modified =
        update_phase_operation(&mut project, &reference, ProcessOperationKind::LoadPcbs, ProcessOperationSetItem::Completed)
            .unwrap();
    assert!(modified);
    let state = project.phase_states.get(&reference).unwrap();
    assert!(state.operation_state.get(&ProcessOperationKind::LoadPcbs).unwrap().completed);
    // an operation the process does not have is refused
    let refused = update_phase_operation(
        &mut project,
        &reference,
        ProcessOperationKind::ManuallySolderComponents,
        ProcessOperationSetItem::Completed,
    );
    assert!(refused.is_err());
    // an unknown phase is refused
    let unknown = update_phase_operation(
        &mut project,
        &Reference::new("bottom_1".to_string()),
        ProcessOperationKind::LoadPcbs,
        ProcessOperationSetItem::Completed,
    );
    assert!(unknown.is_err());
}

#[test]
fn history_kind_follows_the_operation() {
    for completed in [false, true] {
        let state = ProcessOperationState { completed, extra: None };
        assert_eq!(
            build_history_operation_kind(&ProcessOperationKind::LoadPcbs, &state),
            OperationHistoryKind::LoadPcbs { completed }
        );
        assert_eq!(
            build_history_operation_kind(&ProcessOperationKind::AutomatedPnp, &state),
            OperationHistoryKind::AutomatedPnp { completed }
        );
        assert_eq!(
            build_history_operation_kind(&ProcessOperationKind::ManuallySolderComponents, &state),
            OperationHistoryKind::ManuallySolderComponents { completed }
        );
        assert_eq!(
            build_history_operation_kind(&ProcessOperationKind::ReflowComponents, &state),
            OperationHistoryKind::ReflowComponents { completed }
        );
    }
}

#[test]
fn refresh_parts_adds_new_and_removes_unused_parts() {
    let mut project = Project::new("job1".to_string());
    refresh_parts(&mut project, &[Part::new("MFR1".to_string(), "PART1".to_string()), Part::new("MFR2".to_string(), "PART2".to_string())]);
    assert_eq!(project.part_states.len(), 2);
    refresh_parts(&mut project, &[Part::new("MFR2".to_string(), "PART2".to_string())]);
    assert_eq!(project.part_states.len(), 1);
    assert!(project.part_states.contains_key(&Part::new("MFR2".to_string(), "PART2".to_string())));
}

#[test]
fn project_file_path_is_in_the_directory() {
    assert_eq!(build_project_file_path("job1", "projects"), "projects/project-job1.mpnp.json");
    assert_eq!(build_project_file_path("job1", "projects/"), "projects/project-job1.mpnp.json");
    assert_eq!(build_project_file_path("job1", ""), "project-job1.mpnp.json");
}

#[test]
fn assign_placements_to_phase_selects_matching_placements() {
    let mut project = project_with_phase();
    project.placements.insert(
        path("panel=1::unit=1::ref_des=R1"),
        placement_state("panel=1::unit=1", "R1", "MFR1", "PART1", None),
    );
    project.placements.insert(
        path("panel=1::unit=1::ref_des=C1"),
        placement_state("panel=1::unit=1", "C1", "MFR2", "PART2", None),
    );
    let phase = project.phases.get(&Reference::new("top_1".to_string())).unwrap().clone();
    let parts = assign_placements_to_phase(&mut project, &phase, &Pattern::new("ref_des=R").unwrap());
    assert_eq!(parts.len(), 1);
    assert!(parts.contains_key(&Part::new("MFR1".to_string(), "PART1".to_string())));
    let r1 = project.placements.get(&path("panel=1::unit=1::ref_des=R1")).unwrap();
    assert_eq!(r1.phase, Some(Reference::new("top_1".to_string())));
    let c1 = project.placements.get(&path("panel=1::unit=1::ref_des=C1")).unwrap();
    assert_eq!(c1.phase, None);
}

#[test]
fn placing_placements_and_resetting_operations() {
    let mut project = project_with_phase();
    project.placements.insert(
        path("panel=1::unit=1::ref_des=R1"),
        placement_state("panel=1::unit=1", "R1", "MFR1", "PART1", Some("top_1")),
    );
    let placed = update_placements_operation(&mut project, &vec![Pattern::new("R1").unwrap()], PlacementOperation::Placed);
    assert_eq!(placed.len(), 1);
    assert!(project.placements.get(&path("panel=1::unit=1::ref_des=R1")).unwrap().placed);
    reset_operations(&mut project);
    assert!(!project.placements.get(&path("panel=1::unit=1::ref_des=R1")).unwrap().placed);
}

#[test]
fn add_parts_to_load_out_adds_missing_parts_once() {
    let mut items = vec![item("FEEDER_1", "MFR1", "PART1")];
    let mut parts: SortedMap<Part, ()> = SortedMap::new();
    parts.insert(Part::new("MFR1".to_string(), "PART1".to_string()), ());
    parts.insert(Part::new("MFR2".to_string(), "PART2".to_string()), ());
    add_parts_to_load_out(&mut items, &parts);
    assert_eq!(items, vec![item("FEEDER_1", "MFR1", "PART1"), item("", "MFR2", "PART2")]);
    // adding again changes nothing
    add_parts_to_load_out(&mut items, &parts);
    assert_eq!(items.len(), 2);
}

#[test]
fn assign_feeder_to_matching_load_out_items() {
    let pnp = ProcessFactory::by_name("pnp").unwrap();
    let manual = ProcessFactory::by_name("manual").unwrap();
    let feeder = Reference::new("FEEDER_9".to_string());
    let mut items = vec![item("", "MFR1", "PART1"), item("", "MFR1", "PART2"), item("", "MFR2", "PART3")];

    // no matching part
    let result = assign_feeder_to_load_out_item(
        &pnp.name,
        &pnp,
        &mut items,
        &feeder,
        &Pattern::new("MFR3").unwrap(),
        &Pattern::new(".*").unwrap(),
    );
    assert_eq!(
        result,
        Err(FeederAssignmentError::NoMatchingPart { manufacturer: "MFR3".to_string(), mpn: ".*".to_string() })
    );

    // several parts for an automated process
    let result = assign_feeder_to_load_out_item(
        &pnp.name,
        &pnp,
        &mut items,
        &feeder,
        &Pattern::new("MFR1").unwrap(),
        &Pattern::new("PART").unwrap(),
    );
    assert!(matches!(result, Err(FeederAssignmentError::MultipleMatchingParts { .. })));
    assert_eq!(items[0].reference, "");

    // several parts for a manual process
    let parts = assign_feeder_to_load_out_item(
        &manual.name,
        &manual,
        &mut items,
        &feeder,
        &Pattern::new("MFR1").unwrap(),
        &Pattern::new("PART").unwrap(),
    )
    .unwrap();
    assert_eq!(
        parts,
        vec![Part::new("MFR1".to_string(), "PART1".to_string()), Part::new("MFR1".to_string(), "PART2".to_string())]
    );
    assert_eq!(items[0].reference, "FEEDER_9");
    assert_eq!(items[1].reference, "FEEDER_9");
    assert_eq!(items[2].reference, "");
}

#[test]
fn feeder_reference_is_that_of_the_first_item_holding_the_part() {
    let items = vec![item("F1", "MFR1", "PART1"), item("F2", "MFR1", "PART1")];
    assert_eq!(feeder_reference_for(&items, &Part::new("MFR1".to_string(), "PART1".to_string())), "F1");
    assert_eq!(feeder_reference_for(&items, &Part::new("MFR2".to_string(), "PART1".to_string())), "");
}

#[test]
fn phase_artifacts_are_sorted_and_report_parts_without_feeder() {
    let mut project = project_with_phase();
    project.placements.insert(
        path("panel=1::unit=2::ref_des=R1"),
        placement_state("panel=1::unit=2", "R1", "MFR1", "PART1", Some("top_1")),
    );
    project.placements.insert(
        path("panel=1::unit=1::ref_des=R1"),
        placement_state("panel=1::unit=1", "R1", "MFR1", "PART1", Some("top_1")),
    );
    project.placements.insert(
        path("panel=1::unit=1::ref_des=C1"),
        placement_state("panel=1::unit=1", "C1", "MFR2", "PART2", Some("top_1")),
    );
    project.placements.insert(
        path("panel=1::unit=1::ref_des=U1"),
        placement_state("panel=1::unit=1", "U1", "MFR3", "PART3", None),
    );
    let mut phase = project.phases.get(&Reference::new("top_1".to_string())).unwrap().clone();
    phase.placement_orderings = vec![
        PlacementSortingItem { mode: PlacementSortingMode::FeederReference, sort_order: SortOrder::Desc },
        PlacementSortingItem { mode: PlacementSortingMode::PcbUnit, sort_order: SortOrder::Asc },
    ];
    let items = vec![item("FEEDER_1", "MFR1", "PART1"), item("", "MFR2", "PART2")];
    let mut issues: Vec<ProjectReportIssue> = Vec::new();

    let records = generate_phase_artifacts(&project, &phase, &items, &mut issues);

    let paths: Vec<String> = records.iter().map(|r| r.object_path.to_string()).collect();
    assert_eq!(
        paths,
        vec!["panel=1::unit=1::ref_des=R1", "panel=1::unit=2::ref_des=R1", "panel=1::unit=1::ref_des=C1"]
    );
    assert_eq!(records[0].feeder_reference, "FEEDER_1");
    assert_eq!(records[2].feeder_reference, "");
    assert_eq!(records[0].manufacturer, "MFR1");
    assert_eq!(records[0].mpn, "PART1");
    assert_eq!(records[0].x, DecimalValue::new(false, 105, 1));
    assert_eq!(
        issues,
        vec![ProjectReportIssue {
            message: "A part has not been assigned to a feeder".to_string(),
            severity: IssueSeverity::Warning,
            kind: IssueKind::UnassignedPartFeeder { part: Part::new("MFR2".to_string(), "PART2".to_string()) },
        }]
    );
}

#[test]
fn placements_are_reported_pattern_by_pattern() {
    let mut project = project_with_phase();
    for ref_des in ["R1", "R2", "C1"] {
        project.placements.insert(
            path(&format!("panel=1::unit=1::ref_des={}", ref_des)),
            placement_state("panel=1::unit=1", ref_des, "MFR1", "PART1", Some("top_1")),
        );
    }
    let patterns = vec![Pattern::new("R2").unwrap(), Pattern::new("ref_des=R").unwrap()];
    let placed = update_placements_operation(&mut project, &patterns, PlacementOperation::Placed);
    let paths: Vec<String> = placed.iter().map(|(p, _)| p.to_string()).collect();
    assert_eq!(paths, vec!["panel=1::unit=1::ref_des=R2", "panel=1::unit=1::ref_des=R1"]);
    assert!(placed.iter().all(|(_, phase)| *phase == Some(Reference::new("top_1".to_string()))));
    // marking them again changes nothing
    let again = update_placements_operation(&mut project, &patterns, PlacementOperation::Placed);
    assert!(again.is_empty());
}

#[test]
fn refreshing_operation_states_twice_changes_nothing() {
    let mut project = project_with_phase();
    project.placements.insert(
        path("panel=1::unit=1::ref_des=R1"),
        placement_state("panel=1::unit=1", "R1", "MFR1", "PART1", Some("top_1")),
    );
    let first = makerpnp::planning::project::update_phase_operation_states(&mut project);
    assert!(first);
    let state = project.phase_states.get(&Reference::new("top_1".to_string())).unwrap();
    let pnp = state.operation_state.get(&ProcessOperationKind::AutomatedPnp).unwrap();
    assert!(!pnp.completed);
    let second = makerpnp::planning::project::update_phase_operation_states(&mut project);
    assert!(!second);
}
