use makerpnp::eda::criteria::{ExactMatchCriterion, FieldCriterion, GenericCriteria};
use makerpnp::eda::placement::{EdaPlacement, EdaPlacementField};
use makerpnp::eda::substitution::{EdaSubstitutionRule, EdaSubstitutionRuleTransformItem, EdaSubstitutor};
use makerpnp::loaders::placements::PlacementRecordPcbSide;
use makerpnp::part_mapper::part_mapping::PartMapping;
use makerpnp::part_mapper::{PartMapper, PartMapperError};
use makerpnp::pnp::part::Part;
use makerpnp::eda::EdaTool;
use makerpnp::variant_builder::{
    bom_parts, build_mapping_tree, disable_placements, jlcpcb_bom_records, output_placement_records, EdaPlacementTreeFormatter,
};

fn placement(ref_des: &str, name: &str, value: &str) -> EdaPlacement {
    EdaPlacement {
        ref_des: ref_des.to_string(),
        place: true,
        fields: vec![
            EdaPlacementField::new("name".to_string(), name.to_string()),
            EdaPlacementField::new("value".to_string(), value.to_string()),
        ],
        ..EdaPlacement::default()
    }
}

fn criteria(name: &str, value: &str) -> GenericCriteria {
    GenericCriteria {
        criteria: vec![
            ExactMatchCriterion::new("name".to_string(), name.to_string()),
            ExactMatchCriterion::new("value".to_string(), value.to_string()),
        ],
    }
}

fn substitution_rule() -> EdaSubstitutionRule {
    EdaSubstitutionRule {
        criteria: vec![FieldCriterion::Exact(ExactMatchCriterion::new("name".to_string(), "NAME0".to_string()))],
        transforms: vec![EdaSubstitutionRuleTransformItem { field_name: "name".to_string(), field_value: "NAME1".to_string() }],
    }
}

#[test]
fn tree_formatter_formats_fields() {
    let p = placement("R1", "NAME1", "VALUE1");
    assert_eq!(EdaPlacementTreeFormatter::format(&p.fields), "name: 'NAME1', value: 'VALUE1'");
    assert_eq!(EdaPlacementTreeFormatter::format(&[]), "");
}

#[test]
fn disabled_placements_are_not_placed() {
    let originals = vec![placement("R1", "NAME0", "VALUE1"), placement("R2", "NAME2", "VALUE2")];
    let rules = vec![substitution_rule()];
    let results = EdaSubstitutor::substitute(&originals, &rules);
    let placements = disable_placements(&results, &vec!["R2".to_string()]);
    assert_eq!(placements.len(), 2);
    assert!(placements[0].place);
    assert_eq!(placements[0].fields[0].value, "NAME1");
    assert!(!placements[1].place);
    assert_eq!(placements[1].ref_des, "R2");
}

#[test]
fn mapping_tree_and_records() {
    let originals = vec![placement("R1", "NAME0", "VALUE1"), placement("R2", "NAME2", "VALUE2")];
    let rules = vec![substitution_rule()];
    let results = EdaSubstitutor::substitute(&originals, &rules);
    let placements = disable_placements(&results, &vec![]);

    let parts = [Part::new("MFR1".to_string(), "PART1".to_string())];
    let part_mappings = vec![PartMapping::new(&parts[0], vec![criteria("NAME1", "VALUE1")])];
    let processed = PartMapper::process(&placements, &part_mappings, &[], &[]);
    let mappings = match &processed {
        Ok(m) => m,
        Err(PartMapperError::MappingErrors(m)) => m,
    };

    let tree = build_mapping_tree(mappings, &results);
    assert_eq!(tree.label, "Mapping Result");
    assert_eq!(tree.placements.len(), 2);
    assert_eq!(tree.placements[0].label, "R1 (name: 'NAME0', value: 'VALUE1')");
    assert_eq!(tree.placements[0].substitutions, vec!["Substituted (name: 'NAME1'), by (name: 'NAME0')".to_string()]);
    assert_eq!(tree.placements[0].leaves, vec!["manufacturer: 'MFR1', mpn: 'PART1' (Auto-selected)".to_string()]);
    assert_eq!(tree.placements[1].label, "R2 (name: 'NAME2', value: 'VALUE2')");
    assert!(tree.placements[1].substitutions.is_empty());
    assert_eq!(tree.placements[1].leaves, vec!["ERROR: Unresolved mapping - No mappings found.".to_string()]);

    let records = output_placement_records(mappings);
    assert_eq!(records.len(), 2);
    assert_eq!(records[0].ref_des, "R1");
    assert_eq!(records[0].manufacturer, "MFR1");
    assert_eq!(records[0].mpn, "PART1");
    assert!(records[0].place);
    assert_eq!(records[0].pcb_side, PlacementRecordPcbSide::Top);
    assert_eq!(records[1].manufacturer, "");
    assert_eq!(records[1].mpn, "");
}

#[test]
fn bill_of_materials_groups_placements_by_part() {
    let placements = vec![placement("R2", "NAME1", "VALUE1"), placement("R1", "NAME1", "VALUE1"), placement("C1", "NAME2", "VALUE2"), placement("U1", "NAME9", "VALUE9")];
    let parts = [Part::new("MFR1".to_string(), "PART1".to_string()), Part::new("MFR0".to_string(), "PART0".to_string())];
    let part_mappings = vec![
        PartMapping::new(&parts[0], vec![criteria("NAME1", "VALUE1")]),
        PartMapping::new(&parts[1], vec![criteria("NAME2", "VALUE2")]),
    ];
    let processed = PartMapper::process(&placements, &part_mappings, &[], &[]);
    let mappings = match &processed {
        Ok(m) => m,
        Err(PartMapperError::MappingErrors(m)) => m,
    };

    let bom = bom_parts(EdaTool::DipTrace, mappings);
    assert_eq!(bom.len(), 2);

    let meta = vec![
        (Part::new("MFR1".to_string(), "PART1".to_string()), vec![("LCSC".to_string(), "C0001".to_string())]),
        (Part::new("MFR1".to_string(), "PART1".to_string()), vec![("LCSC".to_string(), "C1234".to_string())]),
    ];
    let records = jlcpcb_bom_records(&bom, &meta);
    assert_eq!(records.len(), 2);
    // parts in order: MFR0 before MFR1
    assert_eq!(records[0].comment, "PART0 (MFR0)");
    assert_eq!(records[0].designator, "C1");
    assert_eq!(records[0].footprint, "NAME2");
    assert_eq!(records[0].jlcpcb_part, None);
    assert_eq!(records[0].quantity, 1);
    assert_eq!(records[1].comment, "PART1 (MFR1)");
    assert_eq!(records[1].designator, "R1, R2");
    assert_eq!(records[1].footprint, "NAME1");
    assert_eq!(records[1].jlcpcb_part, Some("C1234".to_string()));
    assert_eq!(records[1].quantity, 2);

    let kicad_bom = bom_parts(EdaTool::KiCad, mappings);
    let kicad_records = jlcpcb_bom_records(&kicad_bom, &vec![]);
    assert_eq!(kicad_records[1].footprint, "UNKNOWN");
}

#[test]
fn substituted_placements_match_no_rule() {
    let originals = vec![placement("R1", "NAME0", "VALUE1")];
    let rules = vec![substitution_rule()];
    let results = EdaSubstitutor::substitute(&originals, &rules);
    for rule in rules.iter() {
        assert!(!rule.matches(&results[0].resulting_placement));
    }
}
