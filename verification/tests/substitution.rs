use makerpnp::eda::criteria::{ExactMatchCriterion, FieldCriterion, RegexMatchCriterion};
use makerpnp::eda::eda_placement::{
    DipTracePlacementDetails, EdaPlacement as DetailedPlacement, EdaPlacementDetails, KiCadPlacementDetails,
};
use makerpnp::eda::eda_substitution::{
    DipTraceSubstitutionRuleDetails, EdaSubstitutionChainEntry as DetailedChainEntry,
    EdaSubstitutionResult as DetailedResult, EdaSubstitutionRule as DetailedRule, EdaSubstitutionRuleDetails,
    EdaSubstitutor as DetailedSubstitutor, KiCadSubstitutionRuleDetails,
};
use makerpnp::eda::placement::{EdaPlacement, EdaPlacementField};
use makerpnp::eda::substitution::{EdaSubstitutionRule, EdaSubstitutionRuleTransformItem, EdaSubstitutor};
use makerpnp::pattern::Pattern;

fn exact(name: &str, pattern: &str) -> FieldCriterion {
    FieldCriterion::Exact(ExactMatchCriterion { field_name: name.to_string(), field_pattern: pattern.to_string() })
}

fn transform(name: &str, value: &str) -> EdaSubstitutionRuleTransformItem {
    EdaSubstitutionRuleTransformItem { field_name: name.to_string(), field_value: value.to_string() }
}

fn placement_with(ref_des: &str, fields: Vec<(&str, &str)>) -> EdaPlacement {
    EdaPlacement {
        ref_des: ref_des.to_string(),
        fields: fields
            .into_iter()
            .map(|(n, v)| EdaPlacementField::new(n.to_string(), v.to_string()))
            .collect(),
        ..EdaPlacement::default()
    }
}

#[test]
fn eda_substitution_substitute_one_diptrace_placement_using_a_chain() {
    // given
    let eda_placement1 = DetailedPlacement {
        ref_des: "R1".to_string(),
        place: true,
        details: EdaPlacementDetails::DipTrace(DipTracePlacementDetails { name: "NAME1".to_string(), value: "VALUE1".to_string() }),
    };
    let eda_placements = vec![eda_placement1];

    // and two substitution rules that must be applied
    let first_eda_substitution = DetailedRule {
        details: EdaSubstitutionRuleDetails::DipTrace(DipTraceSubstitutionRuleDetails {
            name_pattern: "NAME1".to_string(),
            value_pattern: "VALUE1".to_string(),
            name: "INTERMEDIATE_NAME1".to_string(),
            value: "INTERMEDIATE_VALUE1".to_string(),
        }),
    };
    let second_eda_substitution = DetailedRule {
        details: EdaSubstitutionRuleDetails::DipTrace(DipTraceSubstitutionRuleDetails {
            name_pattern: "INTERMEDIATE_NAME1".to_string(),
            value_pattern: "INTERMEDIATE_VALUE1".to_string(),
            name: "SUBSTITUTED_NAME1".to_string(),
            value: "SUBSTITUTED_VALUE1".to_string(),
        }),
    };
    // and a list of rules, that are out-of-order (i.e. eda_substitution1 must be applied first)
    let eda_substitutions = vec![second_eda_substitution, first_eda_substitution];

    // and
    let expected_results = vec![DetailedResult {
        original_placement: &eda_placements[0],
        resulting_placement: DetailedPlacement {
            ref_des: "R1".to_string(),
            place: true,
            details: EdaPlacementDetails::DipTrace(DipTracePlacementDetails {
                name: "SUBSTITUTED_NAME1".to_string(),
                value: "SUBSTITUTED_VALUE1".to_string(),
            }),
        },
        chain: vec![DetailedChainEntry { rule: &eda_substitutions[1] }, DetailedChainEntry { rule: &eda_substitutions[0] }],
    }];

    // when
    let results = DetailedSubstitutor::substitute(eda_placements.as_slice(), eda_substitutions.as_slice());

    // then
    assert_eq!(results, expected_results);
}

#[test]
fn eda_substitution_substitute_one_kicad_placement_using_a_chain() {
    // given
    let eda_placement1 = DetailedPlacement {
        ref_des: "R1".to_string(),
        place: true,
        details: EdaPlacementDetails::KiCad(KiCadPlacementDetails { package: "PACKAGE1".to_string(), val: "VAL1".to_string() }),
    };
    let eda_placements = vec![eda_placement1];

    // and two substitution rules that must be applied
    let first_eda_substitution = DetailedRule {
        details: EdaSubstitutionRuleDetails::KiCad(KiCadSubstitutionRuleDetails {
            package_pattern: "PACKAGE1".to_string(),
            val_pattern: "VAL1".to_string(),
            package: "INTERMEDIATE_PACKAGE1".to_string(),
            val: "INTERMEDIATE_VAL1".to_string(),
        }),
    };
    let second_eda_substitution = DetailedRule {
        details: EdaSubstitutionRuleDetails::KiCad(KiCadSubstitutionRuleDetails {
            package_pattern: "INTERMEDIATE_PACKAGE1".to_string(),
            val_pattern: "INTERMEDIATE_VAL1".to_string(),
            package: "SUBSTITUTED_PACKAGE1".to_string(),
            val: "SUBSTITUTED_VAL1".to_string(),
        }),
    };
    // and a list of rules, that are out-of-order (i.e. eda_substitution1 must be applied first)
    let eda_substitutions = vec![second_eda_substitution, first_eda_substitution];

    // and
    let expected_results = vec![DetailedResult {
        original_placement: &eda_placements[0],
        resulting_placement: DetailedPlacement {
            ref_des: "R1".to_string(),
            place: true,
            details: EdaPlacementDetails::KiCad(KiCadPlacementDetails {
                package: "SUBSTITUTED_PACKAGE1".to_string(),
                val: "SUBSTITUTED_VAL1".to_string(),
            }),
        },
        chain: vec![DetailedChainEntry { rule: &eda_substitutions[1] }, DetailedChainEntry { rule: &eda_substitutions[0] }],
    }];

    // when
    let results = DetailedSubstitutor::substitute(eda_placements.as_slice(), eda_substitutions.as_slice());

    // then
    assert_eq!(results, expected_results);
}

#[test]
fn substitution_substitute_one_diptrace_placement_using_a_chain() {
    // given
    let eda_placements = vec![placement_with("R1", vec![("name", "NAME1"), ("value", "VALUE1")])];

    // and two substitution rules that must be applied
    let first_eda_substitution_rule = EdaSubstitutionRule {
        criteria: vec![
            exact("name", "NAME1"),
            FieldCriterion::Regex(RegexMatchCriterion {
                field_name: "value".to_string(),
                field_pattern: Pattern::new("VALUE1").unwrap(),
            }),
        ],
        transforms: vec![transform("name", "INTERMEDIATE_NAME1"), transform("value", "INTERMEDIATE_VALUE1")],
    };
    let second_eda_substitution_rule = EdaSubstitutionRule {
        criteria: vec![exact("name", "INTERMEDIATE_NAME1"), exact("value", "INTERMEDIATE_VALUE1")],
        transforms: vec![transform("name", "SUBSTITUTED_NAME1"), transform("value", "SUBSTITUTED_VALUE1")],
    };
    // and a list of rules, that are out-of-order (i.e. eda_substitution1 must be applied first)
    let eda_substitution_rules = vec![second_eda_substitution_rule, first_eda_substitution_rule];
    println!("{:?}", eda_substitution_rules);

    // and
    let expected_placement = placement_with("R1", vec![("name", "SUBSTITUTED_NAME1"), ("value", "SUBSTITUTED_VALUE1")]);

    // when
    let results = EdaSubstitutor::substitute(eda_placements.as_slice(), eda_substitution_rules.as_slice());

    // then
    assert_eq!(results.len(), 1);
    assert!(std::ptr::eq(results[0].original_placement, &eda_placements[0]));
    assert_eq!(results[0].resulting_placement, expected_placement);
    assert_eq!(results[0].chain.len(), 2);
    assert!(std::ptr::eq(results[0].chain[0].rule, &eda_substitution_rules[1]));
    assert!(std::ptr::eq(results[0].chain[1].rule, &eda_substitution_rules[0]));
}

#[test]
fn substitution_substitute_one_kicad_placement_using_a_chain() {
    // given
    let eda_placements = vec![placement_with("R1", vec![("package", "PACKAGE1"), ("val", "VAL1")])];

    // and two substitution rules that must be applied
    let first_eda_substitution = EdaSubstitutionRule {
        criteria: vec![exact("package", "PACKAGE1"), exact("val", "VAL1")],
        transforms: vec![transform("package", "INTERMEDIATE_PACKAGE1"), transform("val", "INTERMEDIATE_VAL1")],
    };
    let second_eda_substitution = EdaSubstitutionRule {
        criteria: vec![exact("package", "INTERMEDIATE_PACKAGE1"), exact("val", "INTERMEDIATE_VAL1")],
        transforms: vec![transform("package", "SUBSTITUTED_PACKAGE1"), transform("val", "SUBSTITUTED_VAL1")],
    };
    // and a list of rules, that are out-of-order (i.e. eda_substitution1 must be applied first)
    let eda_substitutions = vec![second_eda_substitution, first_eda_substitution];

    // and
    let expected_placement = placement_with("R1", vec![("package", "SUBSTITUTED_PACKAGE1"), ("val", "SUBSTITUTED_VAL1")]);

    // when
    let results = EdaSubstitutor::substitute(eda_placements.as_slice(), eda_substitutions.as_slice());

    // then
    assert_eq!(results.len(), 1);
    assert!(std::ptr::eq(results[0].original_placement, &eda_placements[0]));
    assert_eq!(results[0].resulting_placement, expected_placement);
    assert_eq!(results[0].chain.len(), 2);
    assert!(std::ptr::eq(results[0].chain[0].rule, &eda_substitutions[1]));
    assert!(std::ptr::eq(results[0].chain[1].rule, &eda_substitutions[0]));
}

#[test]
fn substitution_leaves_unmatched_placements_unchanged() {
    let eda_placements = vec![placement_with("R1", vec![("package", "OTHER"), ("val", "VAL1")])];
    let rules = vec![EdaSubstitutionRule {
        criteria: vec![exact("package", "PACKAGE1")],
        transforms: vec![transform("package", "SUBSTITUTED_PACKAGE1")],
    }];
    let results = EdaSubstitutor::substitute(eda_placements.as_slice(), rules.as_slice());
    assert_eq!(results.len(), 1);
    assert_eq!(results[0].resulting_placement, eda_placements[0]);
    assert!(results[0].chain.is_empty());
}

#[test]
fn substitution_rule_text() {
    let rule = EdaSubstitutionRule {
        criteria: vec![exact("package", "PACKAGE1"), exact("val", "VAL1")],
        transforms: vec![transform("package", "P2")],
    };
    assert_eq!(rule.format_criteria(), "package: 'PACKAGE1', val: 'VAL1'");
    assert_eq!(rule.format_transform(), "package: 'P2'");
}
