use makerpnp::assembly::rules::AssemblyRule;
use makerpnp::eda::criteria::{ExactMatchCriterion, GenericCriteria};
use makerpnp::eda::placement::{EdaPlacement, EdaPlacementField};
use makerpnp::part_mapper::part_mapping::PartMapping;
use makerpnp::part_mapper::{
    AppliedMappingRule, PartMapper, PartMapperError, PartMappingError, PartMappingResult, PlacementPartMappingResult,
};
use makerpnp::pnp::load_out_item::LoadOutItem;
use makerpnp::pnp::part::Part;

fn placement(ref_des: &str, name: &str, value: &str) -> EdaPlacement {
    EdaPlacement {
        ref_des: ref_des.to_string(),
        place: true,
        fields: vec![
            EdaPlacementField::new("name".to_string(), name.to_string()),
            EdaPlacementField::new("value".to_string(), value.to_string()),
        ],
        ..EdaPlacement::default()
    }
}

fn criteria(name: &str, value: &str) -> GenericCriteria {
    GenericCriteria {
        criteria: vec![
            ExactMatchCriterion::new("name".to_string(), name.to_string()),
            ExactMatchCriterion::new("value".to_string(), value.to_string()),
        ],
    }
}

#[test]
fn map_parts() {
    // given
    let eda_placements = vec![placement("R1", "NAME1", "VALUE1"), placement("R2", "NAME2", "VALUE2"), placement("R3", "NAME3", "VALUE3")];
    // and
    let part1 = Part::new("MFR1".to_string(), "PART1".to_string());
    let part2 = Part::new("MFR2".to_string(), "PART2".to_string());
    let part3 = Part::new("MFR3".to_string(), "PART3".to_string());
    let parts = [part1, part2, part3];
    // and
    let part_mapping1 = PartMapping::new(&parts[1 - 1], vec![criteria("NAME1", "VALUE1")]);
    let part_mapping2 = PartMapping::new(&parts[2 - 1], vec![criteria("NAME2", "VALUE2")]);
    let part_mapping3 = PartMapping::new(&parts[3 - 1], vec![criteria("NAME3", "VALUE3")]);
    let part_mappings = vec![part_mapping1, part_mapping2, part_mapping3];
    // and
    let expected_results = Ok(vec![
        PlacementPartMappingResult { part: Some(&parts[0]), eda_placement: &eda_placements[0], mapping_result: Ok(vec![PartMappingResult { part_mapping: &part_mappings[0], applied_rule: Some(AppliedMappingRule::AutoSelected) }]) },
        PlacementPartMappingResult { part: Some(&parts[1]), eda_placement: &eda_placements[1], mapping_result: Ok(vec![PartMappingResult { part_mapping: &part_mappings[1], applied_rule: Some(AppliedMappingRule::AutoSelected) }]) },
        PlacementPartMappingResult { part: Some(&parts[2]), eda_placement: &eda_placements[2], mapping_result: Ok(vec![PartMappingResult { part_mapping: &part_mappings[2], applied_rule: Some(AppliedMappingRule::AutoSelected) }]) },
    ]);
    // when
    let matched_mappings = PartMapper::process(&eda_placements, &part_mappings, &[], &[]);
    // then
    assert_eq!(matched_mappings, expected_results);
}

#[test]
fn map_parts_with_multiple_matching_mappings() {
    // given
    let eda_placements = vec![placement("R1", "NAME1", "VALUE1")];
    // and
    let part1 = Part::new("MFR1".to_string(), "PART1".to_string());
    let part2 = Part::new("MFR2".to_string(), "PART2".to_string());
    let parts = [part1, part2];
    // and
    let part_mapping1 = PartMapping::new(&parts[1 - 1], vec![criteria("NAME1", "VALUE1")]);
    let part_mapping2 = PartMapping::new(&parts[2 - 1], vec![criteria("NAME1", "VALUE1")]);
    let part_mappings = vec![part_mapping1, part_mapping2];
    // and
    let expected_results = Err(PartMapperError::MappingErrors(vec![PlacementPartMappingResult {
        part: None,
        eda_placement: &eda_placements[0],
        mapping_result: Err(PartMappingError::NoRulesApplied(vec![
            PartMappingResult { part_mapping: &part_mappings[0], applied_rule: None },
            PartMappingResult { part_mapping: &part_mappings[1], applied_rule: None },
        ])),
    }]));
    // when
    let matched_mappings = PartMapper::process(&eda_placements, &part_mappings, &[], &[]);
    // then
    assert_eq!(matched_mappings, expected_results);
}

#[test]
fn map_parts_with_no_part_mappings() {
    // given
    let eda_placements = vec![placement("R1", "NAME1", "VALUE1")];
    let part_mappings: Vec<PartMapping> = vec![];
    // and
    let expected_results = Err(PartMapperError::MappingErrors(vec![PlacementPartMappingResult {
        part: None,
        eda_placement: &eda_placements[0],
        mapping_result: Err(PartMappingError::NoMappings),
    }]));
    // when
    let matched_mappings = PartMapper::process(&eda_placements, &part_mappings, &[], &[]);
    // then
    assert_eq!(matched_mappings, expected_results);
}

#[test]
fn map_parts_with_multiple_matching_mappings_with_one_in_the_load_out() {
    // given
    let eda_placements = vec![placement("R1", "NAME1", "VALUE1")];
    // and
    let part1 = Part::new("MFR1".to_string(), "PART1".to_string());
    let part2 = Part::new("MFR2".to_string(), "PART2".to_string());
    let part3 = Part::new("MFR3".to_string(), "PART3".to_string());
    let parts = [part1, part2, part3];
    // and
    let part_mapping1 = PartMapping::new(&parts[1 - 1], vec![criteria("NAME1", "VALUE1")]);
    let part_mapping2 = PartMapping::new(&parts[2 - 1], vec![criteria("NAME1", "VALUE1")]);
    let part_mappings = vec![part_mapping1, part_mapping2];
    // and
    let load_out_items = vec![
        LoadOutItem::new("REFERENCE_1".to_string(), "MFR3".to_string(), "PART3".to_string()),
        LoadOutItem::new("REFERENCE_2".to_string(), "MFR2".to_string(), "PART2".to_string()),
    ];
    // and
    let expected_results = Ok(vec![PlacementPartMappingResult {
        part: Some(&parts[2 - 1]),
        eda_placement: &eda_placements[0],
        mapping_result: Ok(vec![
            PartMappingResult { part_mapping: &part_mappings[0], applied_rule: None },
            PartMappingResult { part_mapping: &part_mappings[1], applied_rule: Some(AppliedMappingRule::FoundInLoadOut("REFERENCE_2".to_string())) },
        ]),
    }]);
    // when
    let matched_mappings = PartMapper::process(&eda_placements, &part_mappings, &load_out_items, &[]);
    // then
    assert_eq!(matched_mappings, expected_results);
}

#[test]
fn map_parts_with_multiple_matching_mappings_with_an_assembly_rule() {
    // given
    let eda_placements = vec![placement("R1", "NAME1", "VALUE1")];
    // and
    let part1 = Part::new("MFR1".to_string(), "PART1".to_string());
    let part2 = Part::new("MFR2".to_string(), "PART2".to_string());
    let part3 = Part::new("MFR3".to_string(), "PART3".to_string());
    let parts = [part1, part2, part3];
    // and
    let part_mapping1 = PartMapping::new(&parts[1 - 1], vec![criteria("NAME1", "VALUE1")]);
    let part_mapping2 = PartMapping::new(&parts[2 - 1], vec![criteria("NAME1", "VALUE1")]);
    let part_mappings = vec![part_mapping1, part_mapping2];
    // and
    let assembly_rule1 = AssemblyRule { ref_des: "C1".to_string(), manufacturer: "MFR3".to_string(), mpn: "PART3".to_string() };
    let assembly_rule2 = AssemblyRule { ref_des: "R1".to_string(), manufacturer: "MFR2".to_string(), mpn: "PART2".to_string() };
    let assembly_rules = &[assembly_rule1, assembly_rule2];
    // and
    let expected_results = Ok(vec![PlacementPartMappingResult {
        part: Some(&parts[2 - 1]),
        eda_placement: &eda_placements[0],
        mapping_result: Ok(vec![
            PartMappingResult { part_mapping: &part_mappings[0], applied_rule: None },
            PartMappingResult { part_mapping: &part_mappings[1], applied_rule: Some(AppliedMappingRule::AssemblyRule) },
        ]),
    }]);
    // when
    let matched_mappings = PartMapper::process(&eda_placements, &part_mappings, &[], assembly_rules);
    // then
    assert_eq!(matched_mappings, expected_results);
}

#[test]
fn map_parts_with_multiple_matching_mappings_with_an_assembly_rule_and_loadout_item() {
    // given
    let eda_placements = vec![placement("R1", "NAME1", "VALUE1")];
    // and
    let part1 = Part::new("MFR1".to_string(), "PART1".to_string());
    let part2 = Part::new("MFR2".to_string(), "PART2".to_string());
    let parts = [part1, part2];
    // and
    let part_mapping1 = PartMapping::new(&parts[1 - 1], vec![criteria("NAME1", "VALUE1")]);
    let part_mapping2 = PartMapping::new(&parts[2 - 1], vec![criteria("NAME1", "VALUE1")]);
    let part_mappings = vec![part_mapping1, part_mapping2];
    // and
    let load_out_items = vec![LoadOutItem::new("REFERENCE_1".to_string(), "MFR1".to_string(), "PART1".to_string())];
    // and
    let assembly_rule1 = AssemblyRule { ref_des: "R1".to_string(), manufacturer: "MFR2".to_string(), mpn: "PART2".to_string() };
    let assembly_rules = &[assembly_rule1];
    // and
    let expected_results = Ok(vec![PlacementPartMappingResult {
        part: Some(&parts[2 - 1]),
        eda_placement: &eda_placements[0],
        mapping_result: Ok(vec![
            PartMappingResult { part_mapping: &part_mappings[0], applied_rule: None },
            PartMappingResult { part_mapping: &part_mappings[1], applied_rule: Some(AppliedMappingRule::AssemblyRule) },
        ]),
    }]);
    // when
    let matched_mappings = PartMapper::process(&eda_placements, &part_mappings, &load_out_items, assembly_rules);
    // then
    assert_eq!(matched_mappings, expected_results);
}

#[test]
fn map_parts_with_conflicting_load_out_items() {
    let eda_placements = vec![placement("R1", "NAME1", "VALUE1")];
    let parts = [Part::new("MFR1".to_string(), "PART1".to_string()), Part::new("MFR2".to_string(), "PART2".to_string())];
    let part_mappings = vec![
        PartMapping::new(&parts[0], vec![criteria("NAME1", "VALUE1")]),
        PartMapping::new(&parts[1], vec![criteria("NAME1", "VALUE1")]),
    ];
    let load_out_items = vec![
        LoadOutItem::new("A".to_string(), "MFR1".to_string(), "PART1".to_string()),
        LoadOutItem::new("B".to_string(), "MFR2".to_string(), "PART2".to_string()),
    ];
    let result = PartMapper::process(&eda_placements, &part_mappings, &load_out_items, &[]);
    match result {
        Err(PartMapperError::MappingErrors(mappings)) => {
            assert!(matches!(mappings[0].mapping_result, Err(PartMappingError::ConflictingRules(_))));
            assert_eq!(mappings[0].part, None);
        },
        Ok(_) => panic!("conflicting rules expected"),
    }
}

#[test]
fn applied_rule_text() {
    assert_eq!(AppliedMappingRule::AutoSelected.to_string(), "Auto-selected");
    assert_eq!(AppliedMappingRule::FoundInLoadOut("F1".to_string()).to_string(), "Found in load-out, reference: 'F1'");
    assert_eq!(AppliedMappingRule::AssemblyRule.to_string(), "Matched assembly-rule");
}
