//! The substitution rules of substitution files.
use vstd::prelude::*;
use crate::loaders::csv::{SubstitutionRecord, SubstitutionRecordError, substitution_built, substitution_refused};
use crate::eda::substitution::EdaSubstitutionRule;

verus! {

/// Whether the record lacks a column.
#[verifier::opaque]
pub open spec fn substitution_refused_any(record: SubstitutionRecord) -> bool {
    let first = crate::loaders::csv::substitution_columns(crate::loaders::csv::tool_field_names(record.eda)[0]);
    let second = crate::loaders::csv::substitution_columns(crate::loaders::csv::tool_field_names(record.eda)[1]);
    crate::loaders::csv::column(record.fields@, first.0) is None || crate::loaders::csv::column(record.fields@, first.1) is None
        || crate::loaders::csv::column(record.fields@, second.0) is None || crate::loaders::csv::column(record.fields@, second.1) is None
}

proof fn lemma_built_not_refused(record: SubstitutionRecord, rule: EdaSubstitutionRule)
    requires
        substitution_built(record, rule),
    ensures
        !substitution_refused_any(record),
{
    reveal(substitution_built);
    reveal(substitution_refused_any);
    let names = crate::loaders::csv::tool_field_names(record.eda);
    let first = crate::loaders::csv::substitution_columns(names[0]);
    let second = crate::loaders::csv::substitution_columns(names[1]);
    let c0 = rule.criteria@[0];
    let c1 = rule.criteria@[1];
    assert(crate::loaders::csv::column(record.fields@, first.0) == Some(rule.transforms@[0].field_value@));
    assert(crate::loaders::csv::column(record.fields@, second.0) == Some(rule.transforms@[1].field_value@));
    assert(crate::loaders::csv::column(record.fields@, first.1) is Some);
    assert(crate::loaders::csv::column(record.fields@, second.1) is Some);
}

/// The substitution rules of the records, in order; the error of the first record
/// that lacks a column.
pub fn load_eda_substitutions(records: &Vec<SubstitutionRecord>) -> (r: Result<Vec<EdaSubstitutionRule>, SubstitutionRecordError>)
    ensures
        match r {
            Ok(rules) => {
                &&& rules@.len() == records@.len()
                &&& forall|i: int| 0 <= i < records@.len() ==> substitution_built(records@[i], #[trigger] rules@[i])
            },
            Err(SubstitutionRecordError::FieldMismatch(names)) => exists|i: int| 0 <= i < records@.len() && {
                &&& substitution_refused(#[trigger] records@[i], names@)
                &&& forall|p: int| 0 <= p < i ==> !substitution_refused_any(#[trigger] records@[p])
            },
        },
{
    let mut rules: Vec<EdaSubstitutionRule> = Vec::new();
    let mut k: usize = 0;
    while k < records.len()
        invariant
            k <= records@.len(),
            rules@.len() == k,
            forall|i: int| 0 <= i < k ==> substitution_built(records@[i], #[trigger] rules@[i]),
            forall|p: int| 0 <= p < k ==> !substitution_refused_any(#[trigger] records@[p]),
        decreases records@.len() - k,
    {
        match records[k].build_eda_substitution() {
            Ok(rule) => {
                proof {
                    lemma_built_not_refused(records@[k as int], rule);
                }
                rules.push(rule);
            },
            Err(e) => {
                return Err(e);
            },
        }
        k = k + 1;
    }
    Ok(rules)
}

} // verus!
