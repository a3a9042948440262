use makerpnp::eda::criteria::{ExactMatchCriterion, GenericCriteria};
use makerpnp::eda::eda_placement::{self as details, EdaPlacementDetails, KiCadPlacementDetails};
use makerpnp::eda::kicad::criteria::KiCadExactMatchCriteria;
use makerpnp::eda::placement::{EdaPlacement, EdaPlacementField};
use makerpnp::part_mapper::criteria::diptrace::ExactMatchCriteria as DipTraceExactMatchCriteria;
use makerpnp::part_mapper::criteria::{ExactMatchCriteria, PartMappingCriteria, PlacementMappingCriteria};
use makerpnp::placement::eda::{DipTracePlacementDetails, EdaPlacement as DipTraceEdaPlacement, EdaPlacementDetails as DipTraceDetails};
use makerpnp::pnp::part::Part;

#[test]
fn criteria_matches() {
    // given
    let criteria = ExactMatchCriteria::new("MFR1".to_string(), "PART1".to_string());
    let part = Part::new("MFR1".to_string(), "PART1".to_string());
    // when
    assert!(criteria.matches(&part));
}

#[test]
fn criteria_does_not_match_due_to_manufacturer_difference() {
    // given
    let criteria = ExactMatchCriteria::new("MFR1".to_string(), "PART1".to_string());
    let part = Part::new("MFR2".to_string(), "PART1".to_string());
    // when
    assert!(!criteria.matches(&part));
}

#[test]
fn criteria_does_not_match_due_to_mpn_difference() {
    // given
    let criteria = ExactMatchCriteria::new("MFR1".to_string(), "PART1".to_string());
    let part = Part::new("MFR1".to_string(), "PART2".to_string());
    // when
    assert!(!criteria.matches(&part));
}

fn diptrace_placement(name: &str, value: &str) -> DipTraceEdaPlacement {
    DipTraceEdaPlacement {
        ref_des: "R1".to_string(),
        details: DipTraceDetails::DipTrace(DipTracePlacementDetails { name: name.to_string(), value: value.to_string() }),
    }
}

#[test]
fn mod_matches() {
    // given
    let criteria = DipTraceExactMatchCriteria::new("NAME1".to_string(), "VALUE1".to_string());
    let placement = diptrace_placement("NAME1", "VALUE1");
    // when
    assert!(criteria.matches(&placement));
}

#[test]
fn mod_does_not_match_due_to_name() {
    // given
    let criteria = DipTraceExactMatchCriteria::new("NAME1".to_string(), "VALUE1".to_string());
    let placement = diptrace_placement("NAME2", "VALUE1");
    // when
    assert!(!criteria.matches(&placement));
}

#[test]
fn mod_does_not_match_due_to_value() {
    // given
    let criteria = DipTraceExactMatchCriteria::new("NAME1".to_string(), "VALUE1".to_string());
    let placement = diptrace_placement("NAME1", "VALUE2");
    // when
    assert!(!criteria.matches(&placement));
}

fn generic_criteria() -> GenericCriteria {
    GenericCriteria {
        criteria: vec![
            ExactMatchCriterion { field_name: "name".to_string(), field_pattern: "NAME1".to_string() },
            ExactMatchCriterion { field_name: "value".to_string(), field_pattern: "VALUE1".to_string() },
        ],
    }
}

fn fields_placement(name: &str, value: &str) -> EdaPlacement {
    EdaPlacement {
        ref_des: "R1".to_string(),
        fields: vec![
            EdaPlacementField { name: "name".to_string(), value: name.to_string() },
            EdaPlacementField { name: "value".to_string(), value: value.to_string() },
        ],
        ..EdaPlacement::default()
    }
}

#[test]
fn generic_criteria_matches() {
    // given
    let criteria = generic_criteria();
    let placement = fields_placement("NAME1", "VALUE1");
    // when
    assert!(criteria.matches(&placement));
}

#[test]
fn criteria_does_not_match_due_to_name() {
    // given
    let criteria = generic_criteria();
    let placement = fields_placement("NAME2", "VALUE1");
    // when
    assert!(!criteria.matches(&placement));
}

#[test]
fn criteria_does_not_match_due_to_value() {
    // given
    let criteria = generic_criteria();
    let placement = fields_placement("NAME2", "VALUE2");
    // when
    assert!(!criteria.matches(&placement));
}

#[test]
fn generic_criteria_without_criteria_match_nothing() {
    let criteria = GenericCriteria { criteria: vec![] };
    assert!(!criteria.matches(&fields_placement("NAME1", "VALUE1")));
}

#[test]
fn exact_criterion_compares_name_and_value() {
    let criterion = ExactMatchCriterion::new("name".to_string(), "NAME1".to_string());
    assert!(criterion.matches("name", "NAME1"));
    assert!(!criterion.matches("value", "NAME1"));
    assert!(!criterion.matches("name", "NAME2"));
}

fn kicad_placement(package: &str, val: &str) -> details::EdaPlacement {
    details::EdaPlacement {
        ref_des: "R1".to_string(),
        place: true,
        details: EdaPlacementDetails::KiCad(KiCadPlacementDetails { package: package.to_string(), val: val.to_string() }),
    }
}

#[test]
fn kicad_criteria_matches() {
    // given
    let criteria = KiCadExactMatchCriteria::new("PACKAGE1".to_string(), "VAL1".to_string());
    let placement = kicad_placement("PACKAGE1", "VAL1");
    // when
    assert!(criteria.matches(&placement));
}

#[test]
fn does_not_match_due_to_package() {
    // given
    let criteria = KiCadExactMatchCriteria::new("PACKAGE1".to_string(), "VAL1".to_string());
    let placement = kicad_placement("PACKAGE2", "VAL1");
    // when
    assert!(!criteria.matches(&placement));
}

#[test]
fn does_not_match_due_to_val() {
    // given
    let criteria = KiCadExactMatchCriteria::new("PACKAGE1".to_string(), "VAL1".to_string());
    let placement = kicad_placement("PACKAGE1", "VAL2");
    // when
    assert!(!criteria.matches(&placement));
}
