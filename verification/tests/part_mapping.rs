use makerpnp::part_mapping::{ExactMatchCriteria, PartMapping, PartMappingCriteria, PartMatcher};
use makerpnp::pnp::part::Part;

#[test]
fn part_mapping_matches() {
    // given
    let criteria = ExactMatchCriteria::new("MFR1".to_string(), "PART1".to_string());
    let part = Part::new("MFR1".to_string(), "PART1".to_string());
    // when
    assert!(criteria.matches(&part));
}

#[test]
fn part_mapping_does_not_match_due_to_manufacturer_difference() {
    // given
    let criteria = ExactMatchCriteria::new("MFR1".to_string(), "PART1".to_string());
    let part = Part::new("MFR2".to_string(), "PART1".to_string());
    // when
    assert!(!criteria.matches(&part));
}

#[test]
fn part_mapping_does_not_match_due_to_mpn_difference() {
    // given
    let criteria = ExactMatchCriteria::new("MFR1".to_string(), "PART1".to_string());
    let part = Part::new("MFR1".to_string(), "PART2".to_string());
    // when
    assert!(!criteria.matches(&part));
}

#[test]
fn match_parts() {
    // given
    let part1 = Part::new("MFR1".to_string(), "PART1".to_string());
    let part2 = Part::new("MFR2".to_string(), "PART2".to_string());
    let part3 = Part::new("MFR3".to_string(), "PART3".to_string());

    let parts = vec![&part1, &part2, &part3];

    // and
    let criteria1 = ExactMatchCriteria::new("MFR1".to_string(), "PART1".to_string());
    let part_mapping1 = PartMapping::new(&part1, vec![&criteria1]);
    let criteria2 = ExactMatchCriteria::new("MFR2".to_string(), "PART2".to_string());
    let part_mapping2 = PartMapping::new(&part2, vec![&criteria2]);
    let criteria3 = ExactMatchCriteria::new("MFR3".to_string(), "PART3".to_string());
    let part_mapping3 = PartMapping::new(&part3, vec![&criteria3]);

    let part_mappings = vec![&part_mapping1, &part_mapping2, &part_mapping3];

    // and
    let expected_part_mappings = Some(vec![&part_mapping1, &part_mapping2, &part_mapping3]);

    // when
    let matched_mappings = PartMatcher::process(parts, part_mappings);

    // then
    assert!(matched_mappings.is_some());
    for (matched_mapping, expected_mapping) in matched_mappings.unwrap().iter().zip(expected_part_mappings.unwrap().iter()) {
        println!("{:?}", matched_mapping.part);
        assert_eq!(matched_mapping.part, expected_mapping.part);
    }
}

#[test]
fn match_parts_without_matches_gives_none() {
    let part1 = Part::new("MFR1".to_string(), "PART1".to_string());
    let criteria = ExactMatchCriteria::new("MFR2".to_string(), "PART2".to_string());
    let mapping = PartMapping::new(&part1, vec![&criteria]);
    assert!(PartMatcher::process(vec![&part1], vec![&mapping]).is_none());
}

#[test]
fn match_parts_counts_each_criterion_met() {
    let part1 = Part::new("MFR1".to_string(), "PART1".to_string());
    let criteria = ExactMatchCriteria::new("MFR1".to_string(), "PART1".to_string());
    let mapping = PartMapping::new(&part1, vec![&criteria, &criteria]);
    let matched = PartMatcher::process(vec![&part1, &part1], vec![&mapping]).expect("matches");
    assert_eq!(matched.len(), 4);
}
