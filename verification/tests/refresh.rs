use makerpnp::pnp::decimal::DecimalValue;
use makerpnp::pnp::object_path::ObjectPath;
use makerpnp::pnp::part::Part;
use makerpnp::pnp::placement::Placement;
use makerpnp::planning::design::{DesignName, DesignVariant};
use makerpnp::planning::pcb::PcbSide;
use makerpnp::planning::placement::PlacementStatus;
use makerpnp::planning::project::Project;
use makerpnp::planning::refresh::{
    build_placements_file_path, build_unique_parts, find_placement_changes, refresh_from_design_variants, Change,
};
use makerpnp::planning::variant::VariantName;
use makerpnp::sorted_map::SortedMap;

fn design_variant(design: &str, variant: &str) -> DesignVariant {
    DesignVariant { design_name: DesignName::new(design.to_string()), variant_name: VariantName::new(variant.to_string()) }
}

fn placement(ref_des: &str, mfr: &str, mpn: &str) -> Placement {
    Placement {
        ref_des: ref_des.to_string(),
        part: Part::new(mfr.to_string(), mpn.to_string()),
        place: true,
        pcb_side: PcbSide::Top,
        x: DecimalValue::new(false, 10, 0),
        y: DecimalValue::new(false, 20, 0),
        rotation: DecimalValue::new(false, 0, 0),
    }
}

fn path(text: &str) -> ObjectPath {
    ObjectPath::from_str(text).unwrap()
}

#[test]
fn placements_file_path() {
    assert_eq!(build_placements_file_path(&design_variant("design_a", "variant_a"), "projects"), "projects/design_a_variant_a_placements.csv");
}

#[test]
fn unique_parts_keep_first_sight_order() {
    let mut map: SortedMap<DesignVariant, Vec<Placement>> = SortedMap::new();
    map.insert(design_variant("d1", "v1"), vec![placement("R1", "MFR2", "P2"), placement("R2", "MFR1", "P1"), placement("R3", "MFR2", "P2")]);
    map.insert(design_variant("d2", "v1"), vec![placement("R1", "MFR1", "P1"), placement("R4", "MFR3", "P3")]);
    let parts = build_unique_parts(&map);
    assert_eq!(
        parts,
        vec![Part::new("MFR2".to_string(), "P2".to_string()), Part::new("MFR1".to_string(), "P1".to_string()), Part::new("MFR3".to_string(), "P3".to_string())]
    );
}

#[test]
fn refresh_adds_updates_and_marks_unused_placements() {
    let mut project = Project::new("job1".to_string());
    project.update_assignment(path("panel=1::unit=1"), design_variant("d1", "v1"));

    let mut map: SortedMap<DesignVariant, Vec<Placement>> = SortedMap::new();
    map.insert(design_variant("d1", "v1"), vec![placement("R1", "MFR1", "P1"), placement("R2", "MFR2", "P2")]);

    let changes = find_placement_changes(&project, &map);
    assert_eq!(changes.len(), 2);
    assert_eq!(changes[0].0, Change::New);
    assert_eq!(changes[0].1.to_string(), "panel=1::unit=1");

    let parts = refresh_from_design_variants(&mut project, &map);
    assert_eq!(parts.len(), 2);
    assert_eq!(project.part_states.len(), 2);
    assert_eq!(project.placements.len(), 2);
    let r1 = project.placements.get(&path("panel=1::unit=1::ref_des=R1")).unwrap();
    assert_eq!(r1.status, PlacementStatus::Known);
    assert!(!r1.placed);
    assert_eq!(r1.unit_path.to_string(), "panel=1::unit=1");

    // R1 changes part, R2 is gone
    let mut map2: SortedMap<DesignVariant, Vec<Placement>> = SortedMap::new();
    map2.insert(design_variant("d1", "v1"), vec![placement("R1", "MFR3", "P3")]);
    let changes = find_placement_changes(&project, &map2);
    assert_eq!(changes.len(), 2);
    assert_eq!(changes[0].0, Change::Existing);
    assert_eq!(changes[1].0, Change::Unused);

    refresh_from_design_variants(&mut project, &map2);
    let r1 = project.placements.get(&path("panel=1::unit=1::ref_des=R1")).unwrap();
    assert_eq!(r1.placement.part, Part::new("MFR3".to_string(), "P3".to_string()));
    let r2 = project.placements.get(&path("panel=1::unit=1::ref_des=R2")).unwrap();
    assert_eq!(r2.status, PlacementStatus::Unknown);
    assert_eq!(project.part_states.len(), 1);
}
