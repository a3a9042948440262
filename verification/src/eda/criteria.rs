//! Criteria on the fields of placements.
use vstd::prelude::*;
use crate::eda::placement::{EdaPlacement, EdaPlacementField};
use crate::part_mapper::criteria::PlacementMappingCriteria;
use crate::pattern::{Pattern, regex_finds};
use crate::text::str_eq;

verus! {

/// A criterion: a field with this name holds exactly this value.
#[derive(Debug, Clone, PartialEq, Eq)]
pub struct ExactMatchCriterion {
    pub field_name: String,
    pub field_pattern: String,
}

impl ExactMatchCriterion {
    pub fn new(field_name: String, field_pattern: String) -> (r: ExactMatchCriterion)
        ensures
            r.field_name == field_name,
            r.field_pattern == field_pattern,
    {
        ExactMatchCriterion { field_name, field_pattern }
    }

    /// Whether a field with this name and value meets the criterion.
    pub fn matches(&self, name: &str, value: &str) -> (r: bool)
        ensures
            r == (self.field_name@ == name@ && self.field_pattern@ == value@),
    {
        str_eq(self.field_name.as_str(), name) && str_eq(self.field_pattern.as_str(), value)
    }
}

/// A criterion: a field with this name holds a value the pattern finds a match in.
#[derive(Debug)]
pub struct RegexMatchCriterion {
    pub field_name: String,
    pub field_pattern: Pattern,
}

/// A criterion on one field of a placement.
#[derive(Debug)]
pub enum FieldCriterion {
    Exact(ExactMatchCriterion),
    Regex(RegexMatchCriterion),
}

/// Whether a field with this name and value meets the criterion.
pub open spec fn field_criterion_matches(c: FieldCriterion, name: Seq<char>, value: Seq<char>) -> bool {
    match c {
        FieldCriterion::Exact(e) => e.field_name@ == name && e.field_pattern@ == value,
        FieldCriterion::Regex(r) => r.field_name@ == name && regex_finds(r.field_pattern@, value),
    }
}

impl FieldCriterion {
    /// Whether a field with this name and value meets the criterion.
    pub fn matches(&self, name: &str, value: &str) -> (r: bool)
        ensures
            r == field_criterion_matches(*self, name@, value@),
    {
        match self {
            FieldCriterion::Exact(e) => e.matches(name, value),
            FieldCriterion::Regex(c) => str_eq(c.field_name.as_str(), name) && c.field_pattern.is_match(value),
        }
    }

    /// The criterion as text: `name: 'pattern'`.
    pub fn format(&self) -> (r: String)
        ensures
            r@ == criterion_text(*self),
    {
        match self {
            FieldCriterion::Exact(e) => quoted_pair(e.field_name.as_str(), e.field_pattern.as_str()),
            FieldCriterion::Regex(c) => quoted_pair(c.field_name.as_str(), c.field_pattern.as_str()),
        }
    }
}

/// The text `name: 'value'`.
pub open spec fn quoted_pair_text(name: Seq<char>, value: Seq<char>) -> Seq<char> {
    name + ": '"@ + value + "'"@
}

/// A criterion as text: its field name and pattern.
pub open spec fn criterion_text(c: FieldCriterion) -> Seq<char> {
    match c {
        FieldCriterion::Exact(e) => quoted_pair_text(e.field_name@, e.field_pattern@),
        FieldCriterion::Regex(r) => quoted_pair_text(r.field_name@, r.field_pattern@),
    }
}

/// Builds the text `name: 'value'`.
pub fn quoted_pair(name: &str, value: &str) -> (r: String)
    ensures
        r@ == quoted_pair_text(name@, value@),
{
    proof {
        reveal_strlit(": '");
        reveal_strlit("'");
    }
    let mut out: Vec<char> = Vec::new();
    crate::text::push_str(&mut out, name);
    crate::text::push_str(&mut out, ": '");
    crate::text::push_str(&mut out, value);
    crate::text::push_str(&mut out, "'");
    let r = crate::text::string_from_chars(out);
    assert(r@ =~= quoted_pair_text(name@, value@));
    r
}

/// Whether some field meets the exact criterion.
pub open spec fn exact_criterion_found(c: ExactMatchCriterion, fields: Seq<EdaPlacementField>) -> bool {
    exists|i: int| 0 <= i < fields.len() && c.field_name@ == (#[trigger] fields[i]).name@ && c.field_pattern@ == fields[i].value@
}

/// Whether there are criteria and each is met by some field.
pub open spec fn exact_criteria_met(criteria: Seq<ExactMatchCriterion>, fields: Seq<EdaPlacementField>) -> bool {
    criteria.len() > 0 && forall|j: int| 0 <= j < criteria.len() ==> exact_criterion_found(#[trigger] criteria[j], fields)
}

/// Criteria on the fields of a placement, all of which must be met.
#[derive(Debug, Clone, PartialEq, Eq)]
pub struct GenericCriteria {
    pub criteria: Vec<ExactMatchCriterion>,
}

/// The first field that meets the exact criterion.
fn find_exact_field(c: &ExactMatchCriterion, fields: &Vec<EdaPlacementField>) -> (r: bool)
    ensures
        r == exact_criterion_found(*c, fields@),
{
    let mut k: usize = 0;
    while k < fields.len()
        invariant
            k <= fields@.len(),
            forall|i: int| 0 <= i < k ==> !(c.field_name@ == (#[trigger] fields@[i]).name@ && c.field_pattern@ == fields@[i].value@),
        decreases fields@.len() - k,
    {
        if c.matches(fields[k].name.as_str(), fields[k].value.as_str()) {
            return true;
        }
        k = k + 1;
    }
    false
}

impl PlacementMappingCriteria for GenericCriteria {
    open spec fn matches_spec(&self, placement: EdaPlacement) -> bool {
        exact_criteria_met(self.criteria@, placement.fields@)
    }

    /// Met when there are criteria and each is met by some field of the placement.
    fn matches(&self, eda_placement: &EdaPlacement) -> (r: bool) {
        let mut matched: Option<bool> = None;
        let mut j: usize = 0;
        while j < self.criteria.len()
            invariant
                j <= self.criteria@.len(),
                j == 0 <==> matched is None,
                matched matches Some(m) ==> m == forall|q: int| 0 <= q < j ==> exact_criterion_found(#[trigger] self.criteria@[q], eda_placement.fields@),
            decreases self.criteria@.len() - j,
        {
            let found = find_exact_field(&self.criteria[j], &eda_placement.fields);
            matched = match matched {
                Some(m) => Some(m && found),
                None => Some(found),
            };
            proof {
                assert(forall|q: int| 0 <= q < j + 1 ==> #[trigger] self.criteria@[q] == self.criteria@[q]);
                if found {
                    assert forall|q: int| 0 <= q < j + 1 && (forall|p: int| 0 <= p < j ==> exact_criterion_found(#[trigger] self.criteria@[p], eda_placement.fields@))
                        implies exact_criterion_found(#[trigger] self.criteria@[q], eda_placement.fields@) by {
                    }
                }
            }
            j = j + 1;
        }
        match matched {
            Some(m) => m,
            None => false,
        }
    }
}

} // verus!
