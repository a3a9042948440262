//! Building an assembly variant: disabling placements after their substitution,
//! the rows of the output placements file, and the tree that shows how each
//! placement was substituted and mapped to a part.
use vstd::prelude::*;
use crate::eda::placement::{EdaPlacement, EdaPlacementField};
use crate::eda::substitution::{EdaSubstitutionRule, EdaSubstitutionResult, transform_views};
use crate::eda::criteria::{FieldCriterion, criterion_text, quoted_pair, quoted_pair_text};
use crate::assembly::{list_contains, ref_des_views};
use crate::part_mapper::{PartMappingResult, PartMappingError, PlacementPartMappingResult, AppliedRuleView, applied_rule_text};
use crate::loaders::placements::{PlacementRecord, PlacementRecordPcbSide};
use crate::planning::pcb::PcbSide;
use crate::text::{join_spec, join_str, str_eq, push_str, string_from_chars, views_of};
use crate::eda::EdaTool;
use crate::pnp::part::Part;
use crate::pnp::placement::RefDes;
use crate::sorted_map::{SortedMap, lemma_map_at};

verus! {

/// The texts of fields: `name: 'value'`.
pub open spec fn field_texts(fields: Seq<EdaPlacementField>) -> Seq<Seq<char>> {
    fields.map_values(|f: EdaPlacementField| quoted_pair_text(f.name@, f.value@))
}

/// Formats the fields of placements for the mapping tree.
pub struct EdaPlacementTreeFormatter {}

impl EdaPlacementTreeFormatter {
    /// The fields as text: `name: 'value'`, separated by `, `.
    pub fn format(fields: &[EdaPlacementField]) -> (r: String)
        ensures
            r@ == join_spec(field_texts(fields@), ", "@),
    {
        let mut parts: Vec<String> = Vec::new();
        let mut k: usize = 0;
        while k < fields.len()
            invariant
                k <= fields@.len(),
                views_of(parts@) == field_texts(fields@).take(k as int),
            decreases fields@.len() - k,
        {
            let text = quoted_pair(fields[k].name.as_str(), fields[k].value.as_str());
            let ghost before = parts@;
            parts.push(text);
            proof {
                assert(views_of(parts@) =~= views_of(before).push(text@));
                assert(field_texts(fields@).take(k + 1) =~= field_texts(fields@).take(k as int).push(
                    field_texts(fields@)[k as int],
                ));
            }
            k = k + 1;
        }
        proof {
            assert(field_texts(fields@).take(k as int) =~= field_texts(fields@));
        }
        join_str(&parts, ", ")
    }
}

/// The label of a substitution: `Substituted (<changes>), by (<criteria>)`.
pub open spec fn substitution_label(rule: EdaSubstitutionRule) -> Seq<char> {
    "Substituted ("@ + join_spec(
        transform_views(rule.transforms@).map_values(|t: (Seq<char>, Seq<char>)| quoted_pair_text(t.0, t.1)),
        ", "@,
    ) + "), by ("@ + join_spec(rule.criteria@.map_values(|c: FieldCriterion| criterion_text(c)), ", "@) + ")"@
}

/// The label of a mapping: the part, and the rule that chose it where one did.
pub open spec fn mapping_label(part: (Seq<char>, Seq<char>), rule: Option<AppliedRuleView>) -> Seq<char> {
    let part_chunk = "manufacturer: '"@ + part.0 + "', mpn: '"@ + part.1 + "'"@;
    match rule {
        Some(v) => part_chunk + " ("@ + applied_rule_text(v) + ")"@,
        None => part_chunk,
    }
}

/// The view of an applied rule, if any.
pub open spec fn rule_view(rule: Option<crate::part_mapper::AppliedMappingRule>) -> Option<AppliedRuleView> {
    match rule {
        Some(r) => Some(r@),
        None => None,
    }
}

/// The labels of mappings.
pub open spec fn mapping_labels(results: Seq<PartMappingResult>) -> Seq<Seq<char>> {
    results.map_values(|m: PartMappingResult| mapping_label(m.part_mapping.part@, rule_view(m.applied_rule)))
}

/// The label of an unresolved mapping.
pub open spec fn error_label(reason: Seq<char>) -> Seq<char> {
    "ERROR: Unresolved mapping - "@ + reason + "."@
}

/// The leaves under a placement: its mappings, and why it was not resolved.
pub open spec fn mapping_leaves(r: Result<Vec<PartMappingResult>, PartMappingError>) -> Seq<Seq<char>> {
    match r {
        Ok(v) => mapping_labels(v@),
        Err(PartMappingError::ConflictingRules(v)) => mapping_labels(v@).push(error_label("Conflicting rules"@)),
        Err(PartMappingError::NoRulesApplied(v)) => mapping_labels(v@).push(error_label("No rules applied"@)),
        Err(PartMappingError::NoMappings) => seq![error_label("No mappings found"@)],
    }
}

/// The position of the first substitution of a placement with the reference
/// designator, if any.
pub open spec fn first_substitution_for(results: Seq<EdaSubstitutionResult>, ref_des: Seq<char>) -> Option<int>
    decreases results.len(),
{
    if results.len() == 0 {
        None
    } else if results[0].original_placement.ref_des@ == ref_des {
        Some(0)
    } else {
        match first_substitution_for(results.drop_first(), ref_des) {
            Some(k) => Some(k + 1),
            None => None,
        }
    }
}

/// A placement of the tree: its label, the labels of its chain of substitutions,
/// each under the one before, and the leaves under the last.
#[derive(Debug, Clone, PartialEq, Eq)]
pub struct MappingTreePlacement {
    pub label: String,
    pub substitutions: Vec<String>,
    pub leaves: Vec<String>,
}

/// The abstract value of a placement of the tree.
pub open spec fn tree_placement_view(p: MappingTreePlacement) -> (Seq<char>, Seq<Seq<char>>, Seq<Seq<char>>) {
    (p.label@, views_of(p.substitutions@), views_of(p.leaves@))
}

/// The tree of the mapping of the placements.
#[derive(Debug, Clone, PartialEq, Eq)]
pub struct MappingTree {
    pub label: String,
    pub placements: Vec<MappingTreePlacement>,
}

/// The node of a mapped placement, given its substitution.
pub open spec fn placement_node(
    m: PlacementPartMappingResult,
    s: EdaSubstitutionResult,
) -> (Seq<char>, Seq<Seq<char>>, Seq<Seq<char>>) {
    (
        m.eda_placement.ref_des@ + " ("@ + join_spec(field_texts(s.original_placement.fields@), ", "@) + ")"@,
        s.chain@.map_values(|e: crate::eda::substitution::EdaSubstitutionChainEntry| substitution_label(*e.rule)),
        mapping_leaves(m.mapping_result),
    )
}

/// The nodes of the mapped placements that have a substitution, in order.
pub open spec fn tree_nodes(
    mappings: Seq<PlacementPartMappingResult>,
    results: Seq<EdaSubstitutionResult>,
) -> Seq<(Seq<char>, Seq<Seq<char>>, Seq<Seq<char>>)>
    decreases mappings.len(),
{
    if mappings.len() == 0 {
        Seq::empty()
    } else {
        let rest = tree_nodes(mappings.drop_last(), results);
        let m = mappings.last();
        match first_substitution_for(results, m.eda_placement.ref_des@) {
            Some(k) => rest.push(placement_node(m, results[k])),
            None => rest,
        }
    }
}

proof fn lemma_first_substitution(results: Seq<EdaSubstitutionResult>, ref_des: Seq<char>, k: int)
    requires
        0 <= k <= results.len(),
        forall|j: int| 0 <= j < k ==> (#[trigger] results[j]).original_placement.ref_des@ != ref_des,
    ensures
        k < results.len() && results[k].original_placement.ref_des@ == ref_des ==> first_substitution_for(results, ref_des) == Some(k),
        k == results.len() ==> first_substitution_for(results, ref_des) is None,
    decreases k,
{
    if k > 0 {
        let rest = results.drop_first();
        assert forall|j: int| 0 <= j < k - 1 implies (#[trigger] rest[j]).original_placement.ref_des@ != ref_des by {
            assert(rest[j] == results[j + 1]);
        }
        assert(results[0].original_placement.ref_des@ != ref_des);
        lemma_first_substitution(rest, ref_des, k - 1);
    } else if results.len() == 0 {
    }
}

/// The labels of mappings, as texts.
fn mapping_texts(results: &Vec<PartMappingResult>) -> (r: Vec<String>)
    ensures
        views_of(r@) == mapping_labels(results@),
{
    let mut r: Vec<String> = Vec::new();
    let mut k: usize = 0;
    while k < results.len()
        invariant
            k <= results@.len(),
            views_of(r@) == mapping_labels(results@).take(k as int),
        decreases results@.len() - k,
    {
        let m = &results[k];
        let part = m.part_mapping.part;
        proof {
            reveal_strlit("manufacturer: '");
            reveal_strlit("', mpn: '");
            reveal_strlit("'");
            reveal_strlit(" (");
            reveal_strlit(")");
        }
        let mut label: Vec<char> = Vec::new();
        push_str(&mut label, "manufacturer: '");
        push_str(&mut label, part.manufacturer.as_str());
        push_str(&mut label, "', mpn: '");
        push_str(&mut label, part.mpn.as_str());
        push_str(&mut label, "'");
        match &m.applied_rule {
            Some(rule) => {
                let text = rule.to_string();
                push_str(&mut label, " (");
                push_str(&mut label, text.as_str());
                push_str(&mut label, ")");
            },
            None => {},
        }
        let text = string_from_chars(label);
        assert(text@ =~= mapping_label(part@, rule_view(m.applied_rule)));
        let ghost before = r@;
        r.push(text);
        proof {
            assert(views_of(r@) =~= views_of(before).push(text@));
            assert(mapping_labels(results@).take(k + 1) =~= mapping_labels(results@).take(k as int).push(
                mapping_labels(results@)[k as int],
            ));
        }
        k = k + 1;
    }
    proof {
        assert(mapping_labels(results@).take(k as int) =~= mapping_labels(results@));
    }
    r
}

/// The label of an unresolved mapping, as text.
fn error_text(reason: &str) -> (r: String)
    ensures
        r@ == error_label(reason@),
{
    proof {
        reveal_strlit("ERROR: Unresolved mapping - ");
        reveal_strlit(".");
    }
    let mut label: Vec<char> = Vec::new();
    push_str(&mut label, "ERROR: Unresolved mapping - ");
    push_str(&mut label, reason);
    push_str(&mut label, ".");
    let text = string_from_chars(label);
    assert(text@ =~= error_label(reason@));
    text
}

/// The leaves under a placement, as texts.
fn leaf_texts(r: &Result<Vec<PartMappingResult>, PartMappingError>) -> (out: Vec<String>)
    ensures
        views_of(out@) == mapping_leaves(*r),
{
    match r {
        Ok(v) => mapping_texts(v),
        Err(PartMappingError::ConflictingRules(v)) => {
            let mut out = mapping_texts(v);
            let ghost before = out@;
            out.push(error_text("Conflicting rules"));
            assert(views_of(out@) =~= views_of(before).push(error_label("Conflicting rules"@)));
            out
        },
        Err(PartMappingError::NoRulesApplied(v)) => {
            let mut out = mapping_texts(v);
            let ghost before = out@;
            out.push(error_text("No rules applied"));
            assert(views_of(out@) =~= views_of(before).push(error_label("No rules applied"@)));
            out
        },
        Err(PartMappingError::NoMappings) => {
            let mut out: Vec<String> = Vec::new();
            out.push(error_text("No mappings found"));
            assert(views_of(out@) =~= seq![error_label("No mappings found"@)]);
            out
        },
    }
}

/// The node of a mapped placement, given its substitution.
fn tree_placement(m: &PlacementPartMappingResult, s: &EdaSubstitutionResult) -> (r: MappingTreePlacement)
    ensures
        tree_placement_view(r) == placement_node(*m, *s),
{
    proof {
        reveal_strlit(" (");
        reveal_strlit(")");
        reveal_strlit("Substituted (");
        reveal_strlit("), by (");
    }
    let fields = EdaPlacementTreeFormatter::format(s.original_placement.fields.as_slice());
    let mut label: Vec<char> = Vec::new();
    push_str(&mut label, m.eda_placement.ref_des.as_str());
    push_str(&mut label, " (");
    push_str(&mut label, fields.as_str());
    push_str(&mut label, ")");
    let label = string_from_chars(label);
    let ghost chain_labels = s.chain@.map_values(
        |e: crate::eda::substitution::EdaSubstitutionChainEntry| substitution_label(*e.rule),
    );
    let mut substitutions: Vec<String> = Vec::new();
    let mut k: usize = 0;
    while k < s.chain.len()
        invariant
            k <= s.chain@.len(),
            chain_labels == s.chain@.map_values(|e: crate::eda::substitution::EdaSubstitutionChainEntry| substitution_label(*e.rule)),
            views_of(substitutions@) == chain_labels.take(k as int),
        decreases s.chain@.len() - k,
    {
        let rule = s.chain[k].rule;
        let transforms = rule.format_transform();
        let criteria = rule.format_criteria();
        let mut text: Vec<char> = Vec::new();
        push_str(&mut text, "Substituted (");
        push_str(&mut text, transforms.as_str());
        push_str(&mut text, "), by (");
        push_str(&mut text, criteria.as_str());
        push_str(&mut text, ")");
        let text = string_from_chars(text);
        assert(text@ =~= substitution_label(*rule));
        let ghost before = substitutions@;
        substitutions.push(text);
        proof {
            assert(views_of(substitutions@) =~= views_of(before).push(text@));
            assert(chain_labels.take(k + 1) =~= chain_labels.take(k as int).push(chain_labels[k as int]));
        }
        k = k + 1;
    }
    proof {
        assert(chain_labels.take(k as int) =~= chain_labels);
    }
    let leaves = leaf_texts(&m.mapping_result);
    let r = MappingTreePlacement { label, substitutions, leaves };
    assert(r.label@ =~= placement_node(*m, *s).0);
    r
}

/// The tree `Mapping Result` of the mapped placements: one placement node for
/// each mapped placement that has a substitution (the first one of a placement
/// with its reference designator), in order.
pub fn build_mapping_tree(
    matched_mappings: &Vec<PlacementPartMappingResult>,
    eda_substitution_results: &Vec<EdaSubstitutionResult>,
) -> (r: MappingTree)
    ensures
        r.label@ == "Mapping Result"@,
        r.placements@.map_values(|p: MappingTreePlacement| tree_placement_view(p)) == tree_nodes(
            matched_mappings@,
            eda_substitution_results@,
        ),
{
    let ghost results = eda_substitution_results@;
    let mut placements: Vec<MappingTreePlacement> = Vec::new();
    let mut i: usize = 0;
    while i < matched_mappings.len()
        invariant
            i <= matched_mappings@.len(),
            results == eda_substitution_results@,
            placements@.map_values(|p: MappingTreePlacement| tree_placement_view(p)) == tree_nodes(
                matched_mappings@.take(i as int),
                results,
            ),
        decreases matched_mappings@.len() - i,
    {
        let m = &matched_mappings[i];
        proof {
            assert(matched_mappings@.take(i + 1).drop_last() =~= matched_mappings@.take(i as int));
            assert(matched_mappings@.take(i + 1).last() == matched_mappings@[i as int]);
        }
        let mut k: usize = 0;
        let mut found = false;
        while k < eda_substitution_results.len() && !found
            invariant
                k <= results.len(),
                results == eda_substitution_results@,
                found ==> k < results.len() && results[k as int].original_placement.ref_des@ == m.eda_placement.ref_des@,
                forall|j: int| 0 <= j < k ==> (#[trigger] results[j]).original_placement.ref_des@ != m.eda_placement.ref_des@,
            decreases results.len() - k + (if found { 0int } else { 1int }),
        {
            if str_eq(eda_substitution_results[k].original_placement.ref_des.as_str(), m.eda_placement.ref_des.as_str()) {
                found = true;
            } else {
                k = k + 1;
            }
        }
        proof {
            lemma_first_substitution(results, m.eda_placement.ref_des@, k as int);
        }
        if found {
            let node = tree_placement(m, &eda_substitution_results[k]);
            let ghost before = placements@;
            placements.push(node);
            proof {
                assert(placements@.map_values(|p: MappingTreePlacement| tree_placement_view(p)) =~= before.map_values(
                    |p: MappingTreePlacement| tree_placement_view(p),
                ).push(tree_placement_view(node)));
            }
        }
        i = i + 1;
    }
    proof {
        assert(matched_mappings@.take(i as int) =~= matched_mappings@);
    }
    MappingTree { label: "Mapping Result".to_owned(), placements }
}

/// The value of the first field with the name, if any.
pub open spec fn field_value_named(fields: Seq<EdaPlacementField>, name: Seq<char>) -> Option<Seq<char>>
    decreases fields.len(),
{
    if fields.len() == 0 {
        None
    } else if fields[0].name@ == name {
        Some(fields[0].value@)
    } else {
        field_value_named(fields.drop_first(), name)
    }
}

/// The footprint of a placement in the bill of materials: for DipTrace the value
/// of its first field named `name`; `UNKNOWN` otherwise.
pub open spec fn footprint_of(tool: EdaTool, fields: Seq<EdaPlacementField>) -> Seq<char> {
    match tool {
        EdaTool::DipTrace => match field_value_named(fields, "name"@) {
            Some(v) => v,
            None => "UNKNOWN"@,
        },
        EdaTool::KiCad => "UNKNOWN"@,
    }
}

/// The footprint of a placement in the bill of materials.
fn footprint(tool: EdaTool, fields: &Vec<EdaPlacementField>) -> (r: String)
    ensures
        r@ == footprint_of(tool, fields@),
{
    proof {
        reveal_strlit("UNKNOWN");
        reveal_strlit("name");
    }
    match tool {
        EdaTool::KiCad => "UNKNOWN".to_owned(),
        EdaTool::DipTrace => {
            let mut k: usize = 0;
            proof {
                assert(fields@.skip(0) =~= fields@);
            }
            while k < fields.len()
                invariant
                    k <= fields@.len(),
                    tool == EdaTool::DipTrace,
                    field_value_named(fields@.skip(k as int), "name"@) == field_value_named(fields@, "name"@),
                decreases fields@.len() - k,
            {
                proof {
                    assert(fields@.skip(k as int)[0] == fields@[k as int]);
                    assert(fields@.skip(k as int).drop_first() =~= fields@.skip(k as int + 1));
                }
                if str_eq(fields[k].name.as_str(), "name") {
                    proof {
                        assert(fields@.skip(k as int).len() > 0);
                        assert(field_value_named(fields@.skip(k as int), "name"@) == Some(fields@[k as int].value@));
                    }
                    return fields[k].value.clone();
                }
                k = k + 1;
            }
            proof {
                assert(fields@.skip(k as int).len() == 0);
            }
            "UNKNOWN".to_owned()
        },
    }
}

/// The part a placement was mapped to, if any.
pub open spec fn mapped_part(m: PlacementPartMappingResult) -> Option<(Seq<char>, Seq<char>)> {
    match m.part {
        Some(p) => Some(p@),
        None => None,
    }
}

/// Whether one of the first `n` placements was mapped to the part.
pub open spec fn mapped_before(ms: Seq<PlacementPartMappingResult>, x: (Seq<char>, Seq<char>), n: int) -> bool {
    exists|i: int| 0 <= i < n && mapped_part(#[trigger] ms[i]) == Some(x)
}

/// Whether placement `i` is the first mapped to the part.
pub open spec fn first_mapped_to(ms: Seq<PlacementPartMappingResult>, x: (Seq<char>, Seq<char>), i: int) -> bool {
    &&& 0 <= i < ms.len()
    &&& mapped_part(ms[i]) == Some(x)
    &&& forall|j: int| 0 <= j < i ==> mapped_part(#[trigger] ms[j]) != Some(x)
}

/// The reference designators of the first `n` placements mapped to the part.
pub open spec fn ref_des_mapped_to(ms: Seq<PlacementPartMappingResult>, x: (Seq<char>, Seq<char>), n: int) -> Set<Seq<char>> {
    Set::new(|d: Seq<char>| exists|i: int| 0 <= i < n && mapped_part(#[trigger] ms[i]) == Some(x) && ms[i].eda_placement.ref_des@ == d)
}

/// The bill of materials of the first `n` placements: each part mapped to, with
/// the reference designators mapped to it and the footprint of the first.
pub open spec fn bom_of(
    tool: EdaTool,
    ms: Seq<PlacementPartMappingResult>,
    n: int,
    bom: Map<(Seq<char>, Seq<char>), (SortedMap<RefDes, ()>, String)>,
) -> bool {
    &&& forall|x: (Seq<char>, Seq<char>)| #[trigger] bom.contains_key(x) == mapped_before(ms, x, n)
    &&& forall|x: (Seq<char>, Seq<char>)| #[trigger] bom.contains_key(x) ==> {
        &&& bom[x].0.wf()
        &&& bom[x].0.map().dom() == ref_des_mapped_to(ms, x, n)
        &&& exists|i: int| #[trigger] first_mapped_to(ms, x, i) && bom[x].1@ == footprint_of(tool, ms[i].eda_placement.fields@)
    }
}

/// Gathers the bill of materials of the mapped placements: for each part, in
/// part order, the reference designators of the placements mapped to it, in
/// order, and the footprint of the first such placement.
pub fn bom_parts(eda_tool: EdaTool, matched_mappings: &Vec<PlacementPartMappingResult>) -> (r: SortedMap<Part, (SortedMap<RefDes, ()>, String)>)
    ensures
        r.wf(),
        bom_of(eda_tool, matched_mappings@, matched_mappings@.len() as int, r.map()),
{
    let ghost ms = matched_mappings@;
    let mut parts: SortedMap<Part, (SortedMap<RefDes, ()>, String)> = SortedMap::new();
    let mut k: usize = 0;
    proof {
        assert forall|x: (Seq<char>, Seq<char>)| #[trigger] parts.map().contains_key(x) == mapped_before(ms, x, 0) by {
        }
    }
    while k < matched_mappings.len()
        invariant
            k <= ms.len(),
            ms == matched_mappings@,
            parts.wf(),
            bom_of(eda_tool, ms, k as int, parts.map()),
        decreases ms.len() - k,
    {
        let m = &matched_mappings[k];
        let ghost before = parts.map();
        match m.part {
            None => {
                proof {
                    assert forall|x: (Seq<char>, Seq<char>)| #[trigger] before.contains_key(x) == mapped_before(ms, x, k + 1) by {
                        if mapped_before(ms, x, k + 1) {
                            let i = choose|i: int| 0 <= i < k + 1 && mapped_part(#[trigger] ms[i]) == Some(x);
                            assert(i < k);
                        }
                    }
                    assert forall|x: (Seq<char>, Seq<char>)| #[trigger] before.contains_key(x) implies before[x].0.map().dom() == ref_des_mapped_to(ms, x, k + 1) by {
                        assert(ref_des_mapped_to(ms, x, k + 1) =~= ref_des_mapped_to(ms, x, k as int));
                    }
                }
            },
            Some(part) => {
                let ghost x0 = part@;
                let ghost d0 = m.eda_placement.ref_des@;
                let fp = footprint(eda_tool, &m.eda_placement.fields);
                match parts.find(part) {
                    Ok(idx) => {
                        proof {
                            lemma_map_at(parts.seq(), idx as int);
                        }
                        let key = part.copy();
                        let (key0, (mut set, footprint0)) = parts.replace_entry_at(idx, (key, (SortedMap::new(), String::new())));
                        let ghost old_set = before[x0].0;
                        proof {
                            assert(set == old_set);
                        }
                        let _ = set.insert(RefDes::new(m.eda_placement.ref_des.clone()), ());
                        let ghost new_set = set;
                        let _ = parts.replace_entry_at(idx, (key0, (set, footprint0)));
                        proof {
                            assert(parts.map() == before.insert(x0, (new_set, before[x0].1)));
                            assert(new_set.map().dom() =~= old_set.map().dom().insert(d0));
                            assert forall|x: (Seq<char>, Seq<char>)| #[trigger] parts.map().contains_key(x) == mapped_before(ms, x, k + 1) by {
                                if mapped_before(ms, x, k + 1) && x != x0 {
                                    let i = choose|i: int| 0 <= i < k + 1 && mapped_part(#[trigger] ms[i]) == Some(x);
                                    assert(i < k);
                                }
                                if x == x0 {
                                    assert(mapped_part(ms[k as int]) == Some(x0));
                                }
                            }
                            assert forall|x: (Seq<char>, Seq<char>)| #[trigger] parts.map().contains_key(x) implies {
                                &&& parts.map()[x].0.wf()
                                &&& parts.map()[x].0.map().dom() == ref_des_mapped_to(ms, x, k + 1)
                                &&& exists|i: int| #[trigger] first_mapped_to(ms, x, i) && parts.map()[x].1@ == footprint_of(eda_tool, ms[i].eda_placement.fields@)
                            } by {
                                if x == x0 {
                                    assert(ref_des_mapped_to(ms, x, k + 1) =~= ref_des_mapped_to(ms, x, k as int).insert(d0));
                                } else {
                                    assert(ref_des_mapped_to(ms, x, k + 1) =~= ref_des_mapped_to(ms, x, k as int));
                                }
                            }
                        }
                    },
                    Err(_) => {
                        let mut set: SortedMap<RefDes, ()> = SortedMap::new();
                        let _ = set.insert(RefDes::new(m.eda_placement.ref_des.clone()), ());
                        let ghost new_set = set;
                        let ghost fp_view = fp@;
                        let _ = parts.insert(part.copy(), (set, fp));
                        proof {
                            assert(!before.contains_key(x0));
                            assert(!mapped_before(ms, x0, k as int));
                            assert(first_mapped_to(ms, x0, k as int));
                            assert(new_set.map().dom() =~= Set::<Seq<char>>::empty().insert(d0));
                            assert forall|x: (Seq<char>, Seq<char>)| #[trigger] parts.map().contains_key(x) == mapped_before(ms, x, k + 1) by {
                                if mapped_before(ms, x, k + 1) && x != x0 {
                                    let i = choose|i: int| 0 <= i < k + 1 && mapped_part(#[trigger] ms[i]) == Some(x);
                                    assert(i < k);
                                }
                                if x == x0 {
                                    assert(mapped_part(ms[k as int]) == Some(x0));
                                }
                            }
                            assert forall|x: (Seq<char>, Seq<char>)| #[trigger] parts.map().contains_key(x) implies {
                                &&& parts.map()[x].0.wf()
                                &&& parts.map()[x].0.map().dom() == ref_des_mapped_to(ms, x, k + 1)
                                &&& exists|i: int| #[trigger] first_mapped_to(ms, x, i) && parts.map()[x].1@ == footprint_of(eda_tool, ms[i].eda_placement.fields@)
                            } by {
                                if x == x0 {
                                    assert forall|d: Seq<char>| #[trigger] ref_des_mapped_to(ms, x, k + 1).contains(d) == (d == d0) by {
                                        if ref_des_mapped_to(ms, x, k + 1).contains(d) {
                                            let i = choose|i: int| 0 <= i < k + 1 && mapped_part(#[trigger] ms[i]) == Some(x) && ms[i].eda_placement.ref_des@ == d;
                                            if i < k {
                                                assert(mapped_before(ms, x0, k as int));
                                            }
                                        }
                                        if d == d0 {
                                            assert(mapped_part(ms[k as int]) == Some(x) && ms[k as int].eda_placement.ref_des@ == d);
                                        }
                                    }
                                    assert(ref_des_mapped_to(ms, x, k + 1) =~= Set::<Seq<char>>::empty().insert(d0));
                                    assert(first_mapped_to(ms, x, k as int) && parts.map()[x].1@ == footprint_of(eda_tool, ms[k as int].eda_placement.fields@));
                                } else {
                                    assert(ref_des_mapped_to(ms, x, k + 1) =~= ref_des_mapped_to(ms, x, k as int));
                                }
                            }
                        }
                    },
                }
            },
        }
        k = k + 1;
    }
    parts
}

/// A row of a bill of materials.
#[derive(Debug, Clone, PartialEq, Eq)]
pub struct BOMRecord {
    pub ref_des_set: String,
    pub manufacturer: String,
    pub mpn: String,
    pub quantity: usize,
}

/// A row of a bill of materials in JLCPCB's form.
#[derive(Debug, Clone, PartialEq, Eq)]
pub struct JLCPCBBOMRecord {
    pub comment: String,
    pub designator: String,
    pub footprint: String,
    pub jlcpcb_part: Option<String>,
    pub quantity: usize,
}

/// The value of the last pair with the key, if any.
pub open spec fn last_value_for(pairs: Seq<(String, String)>, key: Seq<char>) -> Option<Seq<char>>
    decreases pairs.len(),
{
    if pairs.len() == 0 {
        None
    } else if pairs.last().0@ == key {
        Some(pairs.last().1@)
    } else {
        last_value_for(pairs.drop_last(), key)
    }
}

/// The meta data of the last entry for the part, if any.
pub open spec fn part_meta(meta: Seq<(Part, Vec<(String, String)>)>, part: (Seq<char>, Seq<char>)) -> Option<Seq<(String, String)>>
    decreases meta.len(),
{
    if meta.len() == 0 {
        None
    } else if meta.last().0@ == part {
        Some(meta.last().1@)
    } else {
        part_meta(meta.drop_last(), part)
    }
}

/// The JLCPCB part number (`LCSC`) in the meta data of the part, if any.
pub open spec fn lcsc_of(meta: Seq<(Part, Vec<(String, String)>)>, part: (Seq<char>, Seq<char>)) -> Option<Seq<char>> {
    match part_meta(meta, part) {
        Some(pairs) => last_value_for(pairs, "LCSC"@),
        None => None,
    }
}

/// The view of an optional text.
pub open spec fn optional_text(t: Option<String>) -> Option<Seq<char>> {
    match t {
        Some(s) => Some(s@),
        None => None,
    }
}

/// The last value of the key among the pairs.
fn find_last_value(pairs: &Vec<(String, String)>, key: &str) -> (r: Option<String>)
    ensures
        optional_text(r) == last_value_for(pairs@, key@),
{
    let mut k: usize = pairs.len();
    proof {
        assert(pairs@.take(pairs@.len() as int) =~= pairs@);
    }
    while k > 0
        invariant
            k <= pairs@.len(),
            last_value_for(pairs@.take(k as int), key@) == last_value_for(pairs@, key@),
        decreases k,
    {
        proof {
            assert(pairs@.take(k as int).last() == pairs@[k - 1]);
            assert(pairs@.take(k as int).drop_last() =~= pairs@.take(k - 1));
        }
        if str_eq(pairs[k - 1].0.as_str(), key) {
            return Some(pairs[k - 1].1.clone());
        }
        k = k - 1;
    }
    None
}

/// The JLCPCB part number of the part in the meta data.
fn find_lcsc(meta: &Vec<(Part, Vec<(String, String)>)>, part: &Part) -> (r: Option<String>)
    ensures
        optional_text(r) == lcsc_of(meta@, part@),
{
    let mut k: usize = meta.len();
    proof {
        assert(meta@.take(meta@.len() as int) =~= meta@);
        reveal_strlit("LCSC");
    }
    while k > 0
        invariant
            k <= meta@.len(),
            part_meta(meta@.take(k as int), part@) == part_meta(meta@, part@),
        decreases k,
    {
        proof {
            assert(meta@.take(k as int).last() == meta@[k - 1]);
            assert(meta@.take(k as int).drop_last() =~= meta@.take(k - 1));
        }
        if meta[k - 1].0.equals(part) {
            return find_last_value(&meta[k - 1].1, "LCSC");
        }
        k = k - 1;
    }
    None
}

/// The reference designators of a set, in order.
pub open spec fn ref_des_texts(set: Seq<(RefDes, ())>) -> Seq<Seq<char>> {
    set.map_values(|e: (RefDes, ())| e.0@)
}

/// The rows of the JLCPCB bill of materials, one per part in part order: the
/// part as `<mpn> (<manufacturer>)`, its reference designators joined by `, `,
/// its footprint, its JLCPCB part number from the meta data, and the number of
/// its reference designators.
pub fn jlcpcb_bom_records(
    parts: &SortedMap<Part, (SortedMap<RefDes, ()>, String)>,
    parts_and_meta_data: &Vec<(Part, Vec<(String, String)>)>,
) -> (r: Vec<JLCPCBBOMRecord>)
    ensures
        r@.len() == parts.seq().len(),
        forall|i: int| 0 <= i < r@.len() ==> {
            let e = #[trigger] parts.seq()[i];
            &&& r@[i].comment@ == e.0.mpn@ + " ("@ + e.0.manufacturer@ + ")"@
            &&& r@[i].designator@ == join_spec(ref_des_texts(e.1.0.seq()), ", "@)
            &&& r@[i].footprint == e.1.1
            &&& optional_text(r@[i].jlcpcb_part) == lcsc_of(parts_and_meta_data@, e.0@)
            &&& r@[i].quantity == e.1.0.seq().len()
        },
{
    proof {
        reveal_strlit(" (");
        reveal_strlit(")");
    }
    let mut r: Vec<JLCPCBBOMRecord> = Vec::new();
    let mut i: usize = 0;
    while i < parts.len()
        invariant
            i <= parts.seq().len(),
            r@.len() == i,
            forall|j: int| 0 <= j < i ==> {
                let e = #[trigger] parts.seq()[j];
                &&& r@[j].comment@ == e.0.mpn@ + " ("@ + e.0.manufacturer@ + ")"@
                &&& r@[j].designator@ == join_spec(ref_des_texts(e.1.0.seq()), ", "@)
                &&& r@[j].footprint == e.1.1
                &&& optional_text(r@[j].jlcpcb_part) == lcsc_of(parts_and_meta_data@, e.0@)
                &&& r@[j].quantity == e.1.0.seq().len()
            },
        decreases parts.seq().len() - i,
    {
        let entry = parts.entry(i);
        let part = &entry.0;
        let set = &entry.1.0;
        let mut texts: Vec<String> = Vec::new();
        let mut k: usize = 0;
        while k < set.len()
            invariant
                k <= set.seq().len(),
                views_of(texts@) == ref_des_texts(set.seq()).take(k as int),
            decreases set.seq().len() - k,
        {
            let text = set.entry(k).0.to_string();
            let ghost before = texts@;
            texts.push(text);
            proof {
                assert(views_of(texts@) =~= views_of(before).push(text@));
                assert(ref_des_texts(set.seq()).take(k + 1) =~= ref_des_texts(set.seq()).take(k as int).push(
                    ref_des_texts(set.seq())[k as int],
                ));
            }
            k = k + 1;
        }
        proof {
            assert(ref_des_texts(set.seq()).take(k as int) =~= ref_des_texts(set.seq()));
        }
        let mut comment: Vec<char> = Vec::new();
        push_str(&mut comment, part.mpn.as_str());
        push_str(&mut comment, " (");
        push_str(&mut comment, part.manufacturer.as_str());
        push_str(&mut comment, ")");
        let comment = string_from_chars(comment);
        assert(comment@ =~= part.mpn@ + " ("@ + part.manufacturer@ + ")"@);
        let record = JLCPCBBOMRecord {
            comment,
            designator: join_str(&texts, ", "),
            footprint: entry.1.1.clone(),
            jlcpcb_part: find_lcsc(parts_and_meta_data, part),
            quantity: set.len(),
        };
        r.push(record);
        i = i + 1;
    }
    r
}

/// The placements after their substitution, those whose reference designator is
/// in the disable list not to be placed.
pub fn disable_placements(
    eda_substitution_results: &Vec<EdaSubstitutionResult>,
    ref_des_disable_list: &Vec<String>,
) -> (r: Vec<EdaPlacement>)
    ensures
        r@.len() == eda_substitution_results@.len(),
        forall|i: int| 0 <= i < r@.len() ==> {
            let p = (#[trigger] eda_substitution_results@[i]).resulting_placement;
            &&& r@[i].ref_des == p.ref_des
            &&& r@[i].place == (p.place && !ref_des_views(ref_des_disable_list@).contains(p.ref_des@))
            &&& r@[i].fields@ == p.fields@
            &&& r@[i].pcb_side == p.pcb_side
            &&& r@[i].x == p.x
            &&& r@[i].y == p.y
            &&& r@[i].rotation == p.rotation
        },
{
    let mut r: Vec<EdaPlacement> = Vec::new();
    let mut k: usize = 0;
    while k < eda_substitution_results.len()
        invariant
            k <= eda_substitution_results@.len(),
            r@.len() == k,
            forall|i: int| 0 <= i < k ==> {
                let p = (#[trigger] eda_substitution_results@[i]).resulting_placement;
                &&& r@[i].ref_des == p.ref_des
                &&& r@[i].place == (p.place && !ref_des_views(ref_des_disable_list@).contains(p.ref_des@))
                &&& r@[i].fields@ == p.fields@
                &&& r@[i].pcb_side == p.pcb_side
                &&& r@[i].x == p.x
                &&& r@[i].y == p.y
                &&& r@[i].rotation == p.rotation
            },
        decreases eda_substitution_results@.len() - k,
    {
        let mut placement = eda_substitution_results[k].resulting_placement.copy();
        if list_contains(ref_des_disable_list, &placement.ref_des) {
            placement.place = false;
        }
        r.push(placement);
        k = k + 1;
    }
    r
}

/// The rows of the output placements file: for each mapped placement its
/// reference designator, the part it was mapped to (empty texts where none),
/// whether to place it, its side and position.
pub fn output_placement_records(matched_mappings: &Vec<PlacementPartMappingResult>) -> (r: Vec<PlacementRecord>)
    ensures
        r@.len() == matched_mappings@.len(),
        forall|i: int| 0 <= i < r@.len() ==> {
            let m = #[trigger] matched_mappings@[i];
            &&& r@[i].ref_des@ == m.eda_placement.ref_des@
            &&& r@[i].manufacturer@ == (match m.part {
                Some(p) => p.manufacturer@,
                None => Seq::<char>::empty(),
            })
            &&& r@[i].mpn@ == (match m.part {
                Some(p) => p.mpn@,
                None => Seq::<char>::empty(),
            })
            &&& r@[i].place == m.eda_placement.place
            &&& r@[i].pcb_side == (match m.eda_placement.pcb_side {
                PcbSide::Top => PlacementRecordPcbSide::Top,
                PcbSide::Bottom => PlacementRecordPcbSide::Bottom,
            })
            &&& r@[i].x == m.eda_placement.x
            &&& r@[i].y == m.eda_placement.y
            &&& r@[i].rotation == m.eda_placement.rotation
        },
{
    let mut r: Vec<PlacementRecord> = Vec::new();
    let mut k: usize = 0;
    while k < matched_mappings.len()
        invariant
            k <= matched_mappings@.len(),
            r@.len() == k,
            forall|i: int| 0 <= i < k ==> {
                let m = #[trigger] matched_mappings@[i];
                &&& r@[i].ref_des@ == m.eda_placement.ref_des@
                &&& r@[i].manufacturer@ == (match m.part {
                    Some(p) => p.manufacturer@,
                    None => Seq::<char>::empty(),
                })
                &&& r@[i].mpn@ == (match m.part {
                    Some(p) => p.mpn@,
                    None => Seq::<char>::empty(),
                })
                &&& r@[i].place == m.eda_placement.place
                &&& r@[i].pcb_side == (match m.eda_placement.pcb_side {
                    PcbSide::Top => PlacementRecordPcbSide::Top,
                    PcbSide::Bottom => PlacementRecordPcbSide::Bottom,
                })
                &&& r@[i].x == m.eda_placement.x
                &&& r@[i].y == m.eda_placement.y
                &&& r@[i].rotation == m.eda_placement.rotation
            },
        decreases matched_mappings@.len() - k,
    {
        let m = &matched_mappings[k];
        let (manufacturer, mpn) = match m.part {
            Some(p) => (p.manufacturer.clone(), p.mpn.clone()),
            None => (String::new(), String::new()),
        };
        let p = m.eda_placement;
        r.push(PlacementRecord {
            ref_des: p.ref_des.clone(),
            manufacturer,
            mpn,
            place: p.place,
            pcb_side: PlacementRecordPcbSide::from_pcb_side(&p.pcb_side),
            x: p.x,
            y: p.y,
            rotation: p.rotation,
        });
        k = k + 1;
    }
    r
}

} // verus!
