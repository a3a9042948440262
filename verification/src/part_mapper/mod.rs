//! Maps the placements of a design to parts: the mappings whose criteria a
//! placement meets are candidates, and rules choose among them.
use vstd::prelude::*;
use crate::assembly::rules::AssemblyRule;
use crate::eda::placement::EdaPlacement;
use crate::part_mapper::part_mapping::PartMapping;
use crate::part_mapper::criteria::PlacementMappingCriteria;
use crate::pnp::load_out_item::LoadOutItem;
use crate::pnp::part::Part;
use crate::text::str_eq;

pub mod criteria;
pub mod part_mapping;

verus! {

/// How a candidate mapping was chosen.
#[derive(Debug, Clone, PartialEq, Eq)]
pub enum AppliedMappingRule {
    AutoSelected,
    FoundInLoadOut(String),
    AssemblyRule,
}

/// The abstract value of an applied rule.
pub enum AppliedRuleView {
    AutoSelected,
    FoundInLoadOut(Seq<char>),
    AssemblyRule,
}

impl View for AppliedMappingRule {
    type V = AppliedRuleView;

    open spec fn view(&self) -> AppliedRuleView {
        match self {
            AppliedMappingRule::AutoSelected => AppliedRuleView::AutoSelected,
            AppliedMappingRule::FoundInLoadOut(r) => AppliedRuleView::FoundInLoadOut(r@),
            AppliedMappingRule::AssemblyRule => AppliedRuleView::AssemblyRule,
        }
    }
}

/// The text of an applied rule.
pub open spec fn applied_rule_text(v: AppliedRuleView) -> Seq<char> {
    match v {
        AppliedRuleView::AutoSelected => "Auto-selected"@,
        AppliedRuleView::FoundInLoadOut(reference) => "Found in load-out, reference: '"@ + reference + "'"@,
        AppliedRuleView::AssemblyRule => "Matched assembly-rule"@,
    }
}

impl AppliedMappingRule {
    /// The rule as text (`Display`).
    pub fn to_string(&self) -> (r: String)
        ensures
            r@ == applied_rule_text(self@),
    {
        match self {
            AppliedMappingRule::AutoSelected => "Auto-selected".to_owned(),
            AppliedMappingRule::FoundInLoadOut(reference) => {
                proof {
                    reveal_strlit("Found in load-out, reference: '");
                    reveal_strlit("'");
                }
                let mut out: Vec<char> = Vec::new();
                crate::text::push_str(&mut out, "Found in load-out, reference: '");
                crate::text::push_str(&mut out, reference.as_str());
                crate::text::push_str(&mut out, "'");
                let r = crate::text::string_from_chars(out);
                assert(r@ =~= "Found in load-out, reference: '"@ + reference@ + "'"@);
                r
            },
            AppliedMappingRule::AssemblyRule => "Matched assembly-rule".to_owned(),
        }
    }
}

/// A candidate mapping of a placement and the rule that chose it, if any.
#[derive(Debug, PartialEq, Eq)]
pub struct PartMappingResult<'mapping> {
    pub part_mapping: &'mapping PartMapping<'mapping>,
    pub applied_rule: Option<AppliedMappingRule>,
}

/// Why a placement could not be mapped.
#[derive(Debug, PartialEq, Eq)]
pub enum PartMappingError<'mapping> {
    /// More than one rule chose a candidate.
    ConflictingRules(Vec<PartMappingResult<'mapping>>),
    /// There are candidates, but no rule chose one.
    NoRulesApplied(Vec<PartMappingResult<'mapping>>),
    /// No mapping's criteria are met.
    NoMappings,
}

/// The mapping of one placement: its candidates, and the part chosen.
#[derive(Debug, PartialEq, Eq)]
pub struct PlacementPartMappingResult<'placement, 'mapping> {
    pub eda_placement: &'placement EdaPlacement,
    pub mapping_result: Result<Vec<PartMappingResult<'mapping>>, PartMappingError<'mapping>>,
    pub part: Option<&'mapping Part>,
}

/// The error of mapping placements: some placement could not be mapped; holds
/// the mappings of all placements.
#[derive(Debug, PartialEq, Eq)]
pub enum PartMapperError<'placement, 'mapping> {
    MappingErrors(Vec<PlacementPartMappingResult<'placement, 'mapping>>),
}

/// Maps placements to parts.
pub struct PartMapper {}

/// The candidate mappings of a placement: the index of a mapping once for each of
/// its criteria that the placement meets, in mapping order.
pub open spec fn candidates(placement: EdaPlacement, mappings: Seq<PartMapping>) -> Seq<int>
    decreases mappings.len(),
{
    if mappings.len() == 0 {
        Seq::empty()
    } else {
        let last = mappings.len() - 1;
        candidates(placement, mappings.drop_last()) + criteria_hits(placement, mappings[last].criteria@, last)
    }
}

/// The index `j` once for each criteria the placement meets.
pub open spec fn criteria_hits(placement: EdaPlacement, criteria: Seq<crate::eda::criteria::GenericCriteria>, j: int) -> Seq<int>
    decreases criteria.len(),
{
    if criteria.len() == 0 {
        Seq::empty()
    } else {
        criteria_hits(placement, criteria.drop_last(), j) + if criteria.last().matches_spec(placement) {
            seq![j]
        } else {
            Seq::empty()
        }
    }
}

/// Whether an assembly rule chooses the part for the reference designator.
pub open spec fn rule_chooses(rules: Seq<AssemblyRule>, ref_des: Seq<char>, part: Part) -> bool {
    exists|k: int| 0 <= k < rules.len() && (#[trigger] rules[k]).ref_des@ == ref_des
        && rules[k].manufacturer@ == part.manufacturer@ && rules[k].mpn@ == part.mpn@
}

/// The first load-out item holding the part.
pub open spec fn first_item_holding(items: Seq<LoadOutItem>, part: Part) -> Option<int> {
    if exists|k: int| 0 <= k < items.len() && (#[trigger] items[k]).holds(part@) {
        Some(choose|k: int| 0 <= k < items.len() && (#[trigger] items[k]).holds(part@) && forall|p: int| 0 <= p < k ==> !(#[trigger] items[p]).holds(part@))
    } else {
        None
    }
}

/// The rule applied to candidate `i`: the first candidate an assembly rule chooses
/// gets that rule, and no other does; where no assembly rule chooses one, a single
/// candidate is auto-selected, and each of several candidates is chosen where the
/// load-out holds its part (by the first item holding it).
pub open spec fn applied_rule_of(
    parts: Seq<Part>,
    i: int,
    ref_des: Seq<char>,
    items: Seq<LoadOutItem>,
    rules: Seq<AssemblyRule>,
) -> Option<AppliedRuleView> {
    if exists|f: int| 0 <= f < parts.len() && rule_chooses(rules, ref_des, #[trigger] parts[f]) {
        let f = choose|f: int| 0 <= f < parts.len() && rule_chooses(rules, ref_des, #[trigger] parts[f])
            && forall|p: int| 0 <= p < f ==> !rule_chooses(rules, ref_des, #[trigger] parts[p]);
        if i == f {
            Some(AppliedRuleView::AssemblyRule)
        } else {
            None
        }
    } else if parts.len() == 1 {
        Some(AppliedRuleView::AutoSelected)
    } else {
        match first_item_holding(items, parts[i]) {
            Some(k) => Some(AppliedRuleView::FoundInLoadOut(items[k].reference@)),
            None => None,
        }
    }
}

/// The abstract value of an optional applied rule.
pub open spec fn applied_view(a: Option<AppliedMappingRule>) -> Option<AppliedRuleView> {
    match a {
        Some(rule) => Some(rule@),
        None => None,
    }
}

/// The rule that candidate `i` holds once the rules are applied: the rule
/// applied to it, where one is; otherwise the rule it held before.
pub open spec fn rule_after(
    parts: Seq<Part>,
    i: int,
    ref_des: Seq<char>,
    items: Seq<LoadOutItem>,
    rules: Seq<AssemblyRule>,
    earlier: Option<AppliedRuleView>,
) -> Option<AppliedRuleView> {
    match applied_rule_of(parts, i, ref_des, items, rules) {
        Some(v) => Some(v),
        None => earlier,
    }
}

/// The parts of candidate mapping results.
pub open spec fn result_parts(results: Seq<PartMappingResult>) -> Seq<Part> {
    results.map_values(|r: PartMappingResult| *r.part_mapping.part)
}

/// How many of the rules were applied.
pub open spec fn applied_count(results: Seq<PartMappingResult>) -> nat
    decreases results.len(),
{
    if results.len() == 0 {
        0
    } else {
        applied_count(results.drop_last()) + if results.last().applied_rule is Some { 1nat } else { 0nat }
    }
}

/// Whether an assembly rule chooses the part for the reference designator.
fn assembly_rule_chooses(rules: &[AssemblyRule], ref_des: &String, part: &Part) -> (r: bool)
    ensures
        r == rule_chooses(rules@, ref_des@, *part),
{
    let mut k: usize = 0;
    while k < rules.len()
        invariant
            k <= rules@.len(),
            forall|q: int| 0 <= q < k ==> !((#[trigger] rules@[q]).ref_des@ == ref_des@ && rules@[q].manufacturer@ == part.manufacturer@
                && rules@[q].mpn@ == part.mpn@),
        decreases rules@.len() - k,
    {
        let rule = &rules[k];
        if str_eq(ref_des.as_str(), rule.ref_des.as_str()) && str_eq(part.manufacturer.as_str(), rule.manufacturer.as_str())
            && str_eq(part.mpn.as_str(), rule.mpn.as_str()) {
            return true;
        }
        k = k + 1;
    }
    false
}

/// Applies the rules that choose among the candidate mappings of a placement.
fn apply_rules<'mapping>(
    ref_des: &String,
    mapping_results: &mut Vec<PartMappingResult<'mapping>>,
    load_out_items: &[LoadOutItem],
    assembly_rules: &[AssemblyRule],
)
    ensures
        final(mapping_results)@.len() == old(mapping_results)@.len(),
        forall|i: int| 0 <= i < old(mapping_results)@.len() ==> {
            &&& (#[trigger] final(mapping_results)@[i]).part_mapping == old(mapping_results)@[i].part_mapping
            &&& applied_view(final(mapping_results)@[i].applied_rule) == rule_after(
                result_parts(old(mapping_results)@),
                i,
                ref_des@,
                load_out_items@,
                assembly_rules@,
                applied_view(old(mapping_results)@[i].applied_rule),
            )
        },
{
    let ghost parts = result_parts(mapping_results@);
    let ghost original = mapping_results@;
    let n = mapping_results.len();
    let mut i: usize = 0;
    while i < n
        invariant
            n == original.len(),
            i <= n,
            original == old(mapping_results)@,
            mapping_results@ == original,
            parts == result_parts(original),
            forall|q: int| 0 <= q < i ==> !rule_chooses(assembly_rules@, ref_des@, #[trigger] parts[q]),
        decreases n - i,
    {
        let part = mapping_results[i].part_mapping.part;
        if assembly_rule_chooses(assembly_rules, ref_des, part) {
            let entry = PartMappingResult { part_mapping: mapping_results[i].part_mapping, applied_rule: Some(AppliedMappingRule::AssemblyRule) };
            mapping_results.set(i, entry);
            proof {
                assert(parts[i as int] == *part);
                let f = choose|f: int| 0 <= f < parts.len() && rule_chooses(assembly_rules@, ref_des@, #[trigger] parts[f])
                    && forall|p: int| 0 <= p < f ==> !rule_chooses(assembly_rules@, ref_des@, #[trigger] parts[p]);
                assert(0 <= i < parts.len() && rule_chooses(assembly_rules@, ref_des@, parts[i as int]));
                if f < i {
                } else if f > i {
                    assert(!rule_chooses(assembly_rules@, ref_des@, parts[i as int]));
                }
                assert(f == i);
                assert(mapping_results@ == original.update(i as int, entry));
                assert forall|q: int| 0 <= q < n implies {
                    &&& (#[trigger] mapping_results@[q]).part_mapping == original[q].part_mapping
                    &&& applied_view(mapping_results@[q].applied_rule) == rule_after(parts, q, ref_des@, load_out_items@, assembly_rules@, applied_view(original[q].applied_rule))
                } by {
                }
            }
            return;
        }
        proof {
            assert(parts[i as int] == *part);
        }
        i = i + 1;
    }
    proof {
        assert(!exists|f: int| 0 <= f < parts.len() && rule_chooses(assembly_rules@, ref_des@, #[trigger] parts[f]));
    }
    if n == 1 {
        let entry = PartMappingResult { part_mapping: mapping_results[0].part_mapping, applied_rule: Some(AppliedMappingRule::AutoSelected) };
        mapping_results.set(0, entry);
    } else if n >= 2 {
        let mut k: usize = 0;
        while k < n
            invariant
                n == original.len(),
                original == old(mapping_results)@,
                n >= 2,
                k <= n,
                mapping_results@.len() == n,
                parts == result_parts(original),
                !exists|f: int| 0 <= f < parts.len() && rule_chooses(assembly_rules@, ref_des@, #[trigger] parts[f]),
                forall|q: int| 0 <= q < n ==> (#[trigger] mapping_results@[q]).part_mapping == original[q].part_mapping,
                forall|q: int| k <= q < n ==> (#[trigger] mapping_results@[q]).applied_rule == original[q].applied_rule,
                forall|q: int| 0 <= q < k ==> applied_view((#[trigger] mapping_results@[q]).applied_rule)
                    == rule_after(parts, q, ref_des@, load_out_items@, assembly_rules@, applied_view(original[q].applied_rule)),
            decreases n - k,
        {
            let part = mapping_results[k].part_mapping.part;
            proof {
                assert(parts[k as int] == *part);
            }
            match crate::pnp::load_out_item::find_load_out_item_by_part(load_out_items, part) {
                Some(item) => {
                    let entry = PartMappingResult {
                        part_mapping: mapping_results[k].part_mapping,
                        applied_rule: Some(AppliedMappingRule::FoundInLoadOut(load_out_items[item].reference.clone())),
                    };
                    mapping_results.set(k, entry);
                    proof {
                        assert(load_out_items@[item as int].holds(part@));
                        let c = choose|c: int| 0 <= c < load_out_items@.len() && (#[trigger] load_out_items@[c]).holds(part@)
                            && forall|p: int| 0 <= p < c ==> !(#[trigger] load_out_items@[p]).holds(part@);
                        if c < item {
                        } else if c > item {
                            assert(!load_out_items@[item as int].holds(part@));
                        }
                        assert(c == item);
                    }
                },
                None => {},
            }
            k = k + 1;
        }
    }
}

/// The placement mappings of the result of mapping placements, whether `Ok` or not.
pub open spec fn process_results<'placement, 'mapping>(
    r: Result<Vec<PlacementPartMappingResult<'placement, 'mapping>>, PartMapperError<'placement, 'mapping>>,
) -> Seq<PlacementPartMappingResult<'placement, 'mapping>> {
    match r {
        Ok(v) => v@,
        Err(PartMapperError::MappingErrors(v)) => v@,
    }
}

/// The parts of the candidate mappings of a placement.
pub open spec fn candidate_parts(placement: EdaPlacement, mappings: Seq<PartMapping>) -> Seq<Part> {
    candidates(placement, mappings).map_values(|j: int| *mappings[j].part)
}

/// The results describe the candidate mappings of the placement and the rules
/// applied to them.
pub open spec fn describes_candidates(
    l: Seq<PartMappingResult>,
    placement: EdaPlacement,
    mappings: Seq<PartMapping>,
    items: Seq<LoadOutItem>,
    rules: Seq<AssemblyRule>,
) -> bool {
    let cands = candidates(placement, mappings);
    &&& l.len() == cands.len()
    &&& forall|i: int| 0 <= i < l.len() ==> {
        &&& *(#[trigger] l[i]).part_mapping == mappings[cands[i]]
        &&& applied_view(l[i].applied_rule) == applied_rule_of(candidate_parts(placement, mappings), i, placement.ref_des@, items, rules)
    }
}

/// The mapping of a placement: its candidates with the rules applied; the part
/// chosen where exactly one rule applied; otherwise the reason it is unmapped.
pub open spec fn placement_mapped(
    pr: PlacementPartMappingResult,
    placement: EdaPlacement,
    mappings: Seq<PartMapping>,
    items: Seq<LoadOutItem>,
    rules: Seq<AssemblyRule>,
) -> bool {
    &&& *pr.eda_placement == placement
    &&& match pr.mapping_result {
        Ok(l) => {
            &&& describes_candidates(l@, placement, mappings, items, rules)
            &&& applied_count(l@) == 1
            &&& pr.part is Some
            &&& exists|i: int| 0 <= i < l@.len() && (#[trigger] l@[i]).applied_rule is Some && *pr.part->0 == *l@[i].part_mapping.part
        },
        Err(PartMappingError::NoMappings) => candidates(placement, mappings).len() == 0 && pr.part is None,
        Err(PartMappingError::NoRulesApplied(l)) => {
            &&& describes_candidates(l@, placement, mappings, items, rules)
            &&& l@.len() > 0
            &&& applied_count(l@) == 0
            &&& pr.part is None
        },
        Err(PartMappingError::ConflictingRules(l)) => {
            &&& describes_candidates(l@, placement, mappings, items, rules)
            &&& applied_count(l@) >= 2
            &&& pr.part is None
        },
    }
}

/// The candidate mappings that a placement's mapping lists, whatever its outcome.
pub open spec fn mapping_candidates<'p, 'm>(pr: PlacementPartMappingResult<'p, 'm>) -> Seq<PartMappingResult<'m>> {
    match pr.mapping_result {
        Ok(l) => l@,
        Err(PartMappingError::NoRulesApplied(l)) => l@,
        Err(PartMappingError::ConflictingRules(l)) => l@,
        Err(PartMappingError::NoMappings) => seq![],
    }
}

/// An assembly rule chooses a part only for the placement it names: where a
/// candidate of a placement's mapping was chosen by an assembly rule, some rule
/// names that placement's reference designator and that candidate's
/// manufacturer and part number. So a placement that no rule names gets no
/// candidate chosen by an assembly rule.
pub proof fn lemma_assembly_rule_names_the_placement(
    pr: PlacementPartMappingResult,
    placement: EdaPlacement,
    mappings: Seq<PartMapping>,
    items: Seq<LoadOutItem>,
    rules: Seq<AssemblyRule>,
    i: int,
)
    requires
        placement_mapped(pr, placement, mappings, items, rules),
        0 <= i < mapping_candidates(pr).len(),
        mapping_candidates(pr)[i].applied_rule matches Some(AppliedMappingRule::AssemblyRule),
    ensures
        exists|k: int| 0 <= k < rules.len() && (#[trigger] rules[k]).ref_des@ == placement.ref_des@
            && rules[k].manufacturer@ == mapping_candidates(pr)[i].part_mapping.part.manufacturer@
            && rules[k].mpn@ == mapping_candidates(pr)[i].part_mapping.part.mpn@,
{
    let l = mapping_candidates(pr);
    let parts = candidate_parts(placement, mappings);
    let cands = candidates(placement, mappings);
    assert(describes_candidates(l, placement, mappings, items, rules)) by {
        match pr.mapping_result {
            Ok(v) => {},
            Err(PartMappingError::NoRulesApplied(v)) => {},
            Err(PartMappingError::ConflictingRules(v)) => {},
            Err(PartMappingError::NoMappings) => {},
        }
    }
    assert(*l[i].part_mapping == mappings[cands[i]] && applied_view(l[i].applied_rule) == applied_rule_of(parts, i, placement.ref_des@, items, rules));
    assert(parts[i] == *mappings[cands[i]].part);
    lemma_assembly_rule_chosen(parts, i, placement.ref_des@, items, rules);
}

/// Where a rule chooses some candidate's part, there is a first such candidate.
proof fn lemma_first_chosen_exists(parts: Seq<Part>, ref_des: Seq<char>, rules: Seq<AssemblyRule>, g: int)
    requires
        0 <= g < parts.len(),
        rule_chooses(rules, ref_des, parts[g]),
    ensures
        exists|f: int| 0 <= f < parts.len() && rule_chooses(rules, ref_des, #[trigger] parts[f])
            && forall|p: int| 0 <= p < f ==> !rule_chooses(rules, ref_des, #[trigger] parts[p]),
    decreases g,
{
    if exists|p: int| 0 <= p < g && rule_chooses(rules, ref_des, #[trigger] parts[p]) {
        let p = choose|p: int| 0 <= p < g && rule_chooses(rules, ref_des, #[trigger] parts[p]);
        lemma_first_chosen_exists(parts, ref_des, rules, p);
    } else {
        assert(0 <= g < parts.len() && rule_chooses(rules, ref_des, parts[g])
            && forall|p: int| 0 <= p < g ==> !rule_chooses(rules, ref_des, #[trigger] parts[p]));
    }
}

/// Where the rule applied to a candidate is an assembly rule, a rule chooses
/// that candidate's part for the reference designator.
proof fn lemma_assembly_rule_chosen(
    parts: Seq<Part>,
    i: int,
    ref_des: Seq<char>,
    items: Seq<LoadOutItem>,
    rules: Seq<AssemblyRule>,
)
    requires
        0 <= i < parts.len(),
        applied_rule_of(parts, i, ref_des, items, rules) == Some(AppliedRuleView::AssemblyRule),
    ensures
        rule_chooses(rules, ref_des, parts[i]),
{
    if exists|f: int| 0 <= f < parts.len() && rule_chooses(rules, ref_des, #[trigger] parts[f]) {
        let g = choose|f: int| 0 <= f < parts.len() && rule_chooses(rules, ref_des, #[trigger] parts[f]);
        lemma_first_chosen_exists(parts, ref_des, rules, g);
        let f = choose|f: int| 0 <= f < parts.len() && rule_chooses(rules, ref_des, #[trigger] parts[f])
            && forall|p: int| 0 <= p < f ==> !rule_chooses(rules, ref_des, #[trigger] parts[p]);
        assert(i == f);
    } else if parts.len() == 1 {
    } else {
        match first_item_holding(items, parts[i]) {
            Some(k) => {},
            None => {},
        }
    }
}

proof fn lemma_applied_count_bound(l: Seq<PartMappingResult>)
    ensures
        applied_count(l) <= l.len(),
    decreases l.len(),
{
    if l.len() > 0 {
        lemma_applied_count_bound(l.drop_last());
    }
}

proof fn lemma_applied_count_positive(l: Seq<PartMappingResult>, i: int)
    requires
        0 <= i < l.len(),
        l[i].applied_rule is Some,
    ensures
        applied_count(l) >= 1,
    decreases l.len(),
{
    if i < l.len() - 1 {
        assert(l.drop_last()[i] == l[i]);
        lemma_applied_count_positive(l.drop_last(), i);
    }
}

/// The candidate mappings of a placement, before any rule is applied.
fn find_candidates<'mapping>(placement: &EdaPlacement, part_mappings: &'mapping [PartMapping<'mapping>]) -> (r: Vec<PartMappingResult<'mapping>>)
    ensures
        r@.len() == candidates(*placement, part_mappings@).len(),
        forall|i: int| 0 <= i < r@.len() ==> {
            &&& *(#[trigger] r@[i]).part_mapping == part_mappings@[candidates(*placement, part_mappings@)[i]]
            &&& r@[i].applied_rule is None
        },
{
    let ghost m = part_mappings@;
    let mut results: Vec<PartMappingResult<'mapping>> = Vec::new();
    let mut j: usize = 0;
    while j < part_mappings.len()
        invariant
            j <= m.len(),
            m == part_mappings@,
            results@.len() == candidates(*placement, m.take(j as int)).len(),
            forall|i: int| 0 <= i < results@.len() ==> {
                &&& *(#[trigger] results@[i]).part_mapping == m[candidates(*placement, m.take(j as int))[i]]
                &&& results@[i].applied_rule is None
            },
        decreases m.len() - j,
    {
        let mapping = &part_mappings[j];
        let ghost base = candidates(*placement, m.take(j as int));
        let ghost crit = mapping.criteria@;
        let mut c: usize = 0;
        while c < mapping.criteria.len()
            invariant
                c <= crit.len(),
                crit == mapping.criteria@,
                *mapping == m[j as int],
                j < m.len(),
                results@.len() == base.len() + criteria_hits(*placement, crit.take(c as int), j as int).len(),
                forall|i: int| 0 <= i < results@.len() ==> {
                    &&& *(#[trigger] results@[i]).part_mapping == m[(base + criteria_hits(*placement, crit.take(c as int), j as int))[i]]
                    &&& results@[i].applied_rule is None
                },
            decreases crit.len() - c,
        {
            proof {
                assert(crit.take(c + 1).drop_last() =~= crit.take(c as int));
                assert(crit.take(c + 1).last() == crit[c as int]);
            }
            if mapping.criteria[c].matches(placement) {
                let ghost before = results@;
                results.push(PartMappingResult { part_mapping: mapping, applied_rule: None });
                proof {
                    let hits = criteria_hits(*placement, crit.take(c + 1), j as int);
                    assert(hits == criteria_hits(*placement, crit.take(c as int), j as int) + seq![j as int]);
                    assert((base + hits) =~= (base + criteria_hits(*placement, crit.take(c as int), j as int)).push(j as int));
                }
            } else {
                proof {
                    let hits = criteria_hits(*placement, crit.take(c + 1), j as int);
                    assert(hits =~= criteria_hits(*placement, crit.take(c as int), j as int));
                }
            }
            c = c + 1;
        }
        proof {
            assert(crit.take(c as int) =~= crit);
            assert(m.take(j + 1).drop_last() =~= m.take(j as int));
            assert(m.take(j + 1)[j as int] == m[j as int]);
            assert(candidates(*placement, m.take(j + 1)) == base + criteria_hits(*placement, crit, j as int));
        }
        j = j + 1;
    }
    proof {
        assert(m.take(j as int) =~= m);
    }
    results
}

impl PartMapper {
    /// Maps each placement to a part: the candidates are the mappings whose
    /// criteria the placement meets (once per criteria met); an assembly rule, a
    /// single candidate, or the load-out chooses. `Ok` when every placement has
    /// exactly one chosen candidate; otherwise the error holds every placement's
    /// mapping.
    pub fn process<'placement, 'mapping>(
        eda_placements: &'placement [EdaPlacement],
        part_mappings: &'mapping [PartMapping<'mapping>],
        load_out_items: &[LoadOutItem],
        assembly_rules: &[AssemblyRule],
    ) -> (r: Result<Vec<PlacementPartMappingResult<'placement, 'mapping>>, PartMapperError<'placement, 'mapping>>)
        ensures
            process_results(r).len() == eda_placements@.len(),
            forall|i: int| 0 <= i < process_results(r).len() ==> placement_mapped(
                #[trigger] process_results(r)[i],
                eda_placements@[i],
                part_mappings@,
                load_out_items@,
                assembly_rules@,
            ),
            (r is Ok) == forall|i: int| 0 <= i < process_results(r).len() ==> (#[trigger] process_results(r)[i]).mapping_result is Ok,
    {
        let mut error_count: usize = 0;
        let mut mappings: Vec<PlacementPartMappingResult<'placement, 'mapping>> = Vec::new();
        let mut k: usize = 0;
        while k < eda_placements.len()
            invariant
                k <= eda_placements@.len(),
                mappings@.len() == k,
                error_count <= k,
                forall|i: int| 0 <= i < k ==> placement_mapped(
                    #[trigger] mappings@[i],
                    eda_placements@[i],
                    part_mappings@,
                    load_out_items@,
                    assembly_rules@,
                ),
                (error_count == 0) == forall|i: int| 0 <= i < k ==> (#[trigger] mappings@[i]).mapping_result is Ok,
            decreases eda_placements@.len() - k,
        {
            let eda_placement = &eda_placements[k];
            let mut results = find_candidates(eda_placement, part_mappings);
            let ghost before = results@;
            proof {
                assert(result_parts(before) =~= candidate_parts(*eda_placement, part_mappings@));
            }
            apply_rules(&eda_placement.ref_des, &mut results, load_out_items, assembly_rules);
            let mut count: usize = 0;
            let mut chosen: Option<&'mapping Part> = None;
            let mut q: usize = 0;
            while q < results.len()
                invariant
                    q <= results@.len(),
                    count == applied_count(results@.take(q as int)),
                    count <= q,
                    chosen is None ==> count == 0,
                    chosen matches Some(p) ==> exists|i: int| 0 <= i < q && (#[trigger] results@[i]).applied_rule is Some
                        && *p == *results@[i].part_mapping.part,
                decreases results@.len() - q,
            {
                proof {
                    assert(results@.take(q + 1).drop_last() =~= results@.take(q as int));
                }
                if results[q].applied_rule.is_some() {
                    count = count + 1;
                    if chosen.is_none() {
                        chosen = Some(results[q].part_mapping.part);
                    }
                }
                q = q + 1;
            }
            proof {
                assert(results@.take(q as int) =~= results@);
                assert(describes_candidates(results@, *eda_placement, part_mappings@, load_out_items@, assembly_rules@));
            }
            let n = results.len();
            let result = if count == 1 {
                PlacementPartMappingResult { eda_placement, mapping_result: Ok(results), part: chosen }
            } else if n == 0 {
                PlacementPartMappingResult { eda_placement, mapping_result: Err(PartMappingError::NoMappings), part: None }
            } else if count == 0 {
                PlacementPartMappingResult { eda_placement, mapping_result: Err(PartMappingError::NoRulesApplied(results)), part: None }
            } else {
                PlacementPartMappingResult { eda_placement, mapping_result: Err(PartMappingError::ConflictingRules(results)), part: None }
            };
            let failed = result.mapping_result.is_err();
            if failed {
                error_count = error_count + 1;
            }
            let ghost before_push = mappings@;
            mappings.push(result);
            proof {
                assert(mappings@ == before_push.push(result));
                assert(mappings@[k as int] == result);
                if !failed && error_count == 0 {
                    assert forall|i: int| 0 <= i < k + 1 implies (#[trigger] mappings@[i]).mapping_result is Ok by {
                        if i < k {
                            assert(mappings@[i] == before_push[i]);
                        }
                    }
                } else if failed {
                    assert(!(mappings@[k as int].mapping_result is Ok));
                } else {
                    let i = choose|i: int| 0 <= i < k && !((#[trigger] before_push[i]).mapping_result is Ok);
                    assert(mappings@[i] == before_push[i]);
                }
                assert forall|i: int| 0 <= i < k ==> #[trigger] mappings@[i] == before_push[i] by {}
            }
            k = k + 1;
        }
        if error_count == 0 {
            Ok(mappings)
        } else {
            proof {
                let i = choose|i: int| 0 <= i < k && !((#[trigger] mappings@[i]).mapping_result is Ok);
            }
            Err(PartMapperError::MappingErrors(mappings))
        }
    }
}

} // verus!
