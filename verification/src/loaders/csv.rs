//! The records of the CSV files of parts, part mappings, load-outs,
//! substitutions and assembly rules, and the values they build.
use vstd::prelude::*;
use crate::assembly::rules::AssemblyRule;
use crate::eda::criteria::{ExactMatchCriterion, GenericCriteria, FieldCriterion};
use crate::eda::substitution::{EdaSubstitutionRule, EdaSubstitutionRuleTransformItem};
use crate::part_mapper::part_mapping::PartMapping;
use crate::planning::pcb::{to_lowercase, lowercase_of};
use crate::pnp::part::Part;
use crate::pnp::load_out_item::LoadOutItem;
use crate::text::{str_eq, push_str, string_from_chars};

verus! {

/// The EDA tool a record is for.
#[derive(Debug, Clone, Copy, PartialEq, Eq, Structural)]
pub enum CSVEdaToolValue {
    DipTrace,
    KiCad,
}

/// The names of the fields of a tool's placements: `name` and `value` for
/// DipTrace, `package` and `val` for KiCad.
pub open spec fn tool_field_names(eda: CSVEdaToolValue) -> Seq<Seq<char>> {
    match eda {
        CSVEdaToolValue::DipTrace => seq!["name"@, "value"@],
        CSVEdaToolValue::KiCad => seq!["package"@, "val"@],
    }
}

fn tool_field_name(eda: CSVEdaToolValue, i: usize) -> (r: &'static str)
    requires
        i < 2,
    ensures
        r@ == tool_field_names(eda)[i as int],
{
    match eda {
        CSVEdaToolValue::DipTrace => if i == 0 { "name" } else { "value" },
        CSVEdaToolValue::KiCad => if i == 0 { "package" } else { "val" },
    }
}

/// A record of a part mappings file: the part, and the fields of the placements
/// mapped to it (all other columns of the record).
#[derive(Debug, Clone, PartialEq, Eq)]
pub struct PartMappingRecord {
    pub eda: CSVEdaToolValue,
    pub manufacturer: String,
    pub mpn: String,
    pub fields: Vec<(String, String)>,
}

/// The errors of building a part mapping.
#[derive(Debug, Clone, PartialEq, Eq)]
pub enum PartMappingRecordError {
    UnableToBuildCriteria,
    NoMatchingPart { criteria: Part },
}

/// The criteria of a part mapping record: its columns whose lower-cased name is a
/// field name of its tool, with the lower-cased name, in column order.
pub open spec fn mapping_criteria(eda: CSVEdaToolValue, fields: Seq<(String, String)>) -> Seq<(Seq<char>, Seq<char>)>
    decreases fields.len(),
{
    if fields.len() == 0 {
        Seq::empty()
    } else {
        let last = fields.last();
        mapping_criteria(eda, fields.drop_last()) + if tool_field_names(eda).contains(lowercase_of(last.0@)) {
            seq![(lowercase_of(last.0@), last.1@)]
        } else {
            Seq::empty()
        }
    }
}

/// The values of exact criteria.
pub open spec fn criterion_views(s: Seq<ExactMatchCriterion>) -> Seq<(Seq<char>, Seq<char>)> {
    s.map_values(|c: ExactMatchCriterion| (c.field_name@, c.field_pattern@))
}

/// The first part equal to the given one.
pub open spec fn first_equal_part(parts: Seq<Part>, part: (Seq<char>, Seq<char>)) -> Option<int> {
    if exists|i: int| 0 <= i < parts.len() && (#[trigger] parts[i])@ == part {
        Some(choose|i: int| 0 <= i < parts.len() && (#[trigger] parts[i])@ == part && forall|p: int| 0 <= p < i ==> (#[trigger] parts[p])@ != part)
    } else {
        None
    }
}

/// Whether the lower-cased name is a field name of the tool.
fn is_tool_field(eda: CSVEdaToolValue, lower: &str) -> (r: bool)
    ensures
        r == tool_field_names(eda).contains(lower@),
{
    let a = str_eq(lower, tool_field_name(eda, 0));
    let b = str_eq(lower, tool_field_name(eda, 1));
    proof {
        let names = tool_field_names(eda);
        if names.contains(lower@) {
            let i = choose|i: int| 0 <= i < names.len() && names[i] == lower@;
            assert(i == 0 || i == 1);
        }
        if a {
            assert(names[0] == lower@);
        }
        if b {
            assert(names[1] == lower@);
        }
    }
    a || b
}

impl PartMappingRecord {
    /// The mapping of the record: the first of the parts equal to the record's part,
    /// with one criteria made of the record's criteria; an error where no part is
    /// equal.
    pub fn build_part_mapping<'part>(&self, parts: &'part [Part]) -> (r: Result<PartMapping<'part>, PartMappingRecordError>)
        ensures
            match first_equal_part(parts@, (self.manufacturer@, self.mpn@)) {
                Some(i) => r matches Ok(m) && {
                    &&& *m.part == parts@[i]
                    &&& m.criteria@.len() == 1
                    &&& criterion_views(m.criteria@[0].criteria@) == mapping_criteria(self.eda, self.fields@)
                },
                None => r matches Err(PartMappingRecordError::NoMatchingPart { criteria })
                    && criteria.manufacturer@ == self.manufacturer@ && criteria.mpn@ == self.mpn@,
            },
    {
        let criteria_part = Part::new(self.manufacturer.clone(), self.mpn.clone());
        let mut found: Option<usize> = None;
        let mut k: usize = 0;
        while k < parts.len() && found.is_none()
            invariant
                k <= parts@.len(),
                criteria_part@ == (self.manufacturer@, self.mpn@),
                found matches Some(i) ==> i < parts@.len() && parts@[i as int]@ == criteria_part@ && i + 1 == k,
                forall|p: int| 0 <= p < k && (found is None || p < k - 1) ==> (#[trigger] parts@[p])@ != criteria_part@,
            decreases parts@.len() - k,
        {
            if parts[k].equals(&criteria_part) {
                found = Some(k);
            }
            k = k + 1;
        }
        let index = match found {
            Some(i) => i,
            None => {
                return Err(PartMappingRecordError::NoMatchingPart { criteria: criteria_part });
            },
        };
        proof {
            let f = first_equal_part(parts@, criteria_part@);
            assert(parts@[index as int]@ == criteria_part@);
            let c = choose|c: int| 0 <= c < parts@.len() && (#[trigger] parts@[c])@ == criteria_part@
                && forall|p: int| 0 <= p < c ==> (#[trigger] parts@[p])@ != criteria_part@;
            if c < index {
            } else if c > index {
                assert(parts@[index as int]@ != criteria_part@);
            }
        }
        let mut criteria: Vec<ExactMatchCriterion> = Vec::new();
        let mut j: usize = 0;
        while j < self.fields.len()
            invariant
                j <= self.fields@.len(),
                criterion_views(criteria@) == mapping_criteria(self.eda, self.fields@.take(j as int)),
            decreases self.fields@.len() - j,
        {
            let (key, value) = &self.fields[j];
            let lower = to_lowercase(key.as_str());
            proof {
                assert(self.fields@.take(j + 1).drop_last() =~= self.fields@.take(j as int));
                assert(self.fields@.take(j + 1).last() == self.fields@[j as int]);
            }
            if is_tool_field(self.eda, lower.as_str()) {
                let ghost before = criteria@;
                criteria.push(ExactMatchCriterion::new(lower, value.clone()));
                proof {
                    assert(criterion_views(criteria@) =~= criterion_views(before).push((lowercase_of(key@), value@)));
                }
            }
            j = j + 1;
        }
        proof {
            assert(self.fields@.take(j as int) =~= self.fields@);
        }
        let mut all: Vec<GenericCriteria> = Vec::new();
        all.push(GenericCriteria { criteria });
        Ok(PartMapping::new(&parts[index], all))
    }
}

/// A record of a parts file.
#[derive(Debug, Clone, PartialEq, Eq)]
pub struct PartRecord {
    pub manufacturer: String,
    pub mpn: String,
}

impl PartRecord {
    /// The part of the record.
    pub fn build_part(&self) -> (r: Result<Part, ()>)
        ensures
            r matches Ok(p) && p@ == (self.manufacturer@, self.mpn@),
    {
        Ok(Part::new(self.manufacturer.clone(), self.mpn.clone()))
    }
}

/// A record of a load-out file.
#[derive(Debug, Clone, PartialEq, Eq)]
pub struct LoadOutItemRecord {
    pub reference: String,
    pub manufacturer: String,
    pub mpn: String,
}

impl LoadOutItemRecord {
    /// The load-out item of the record.
    pub fn build_load_out_item(&self) -> (r: Result<LoadOutItem, ()>)
        ensures
            r matches Ok(item) && item.reference@ == self.reference@ && item.manufacturer@ == self.manufacturer@
                && item.mpn@ == self.mpn@,
    {
        Ok(LoadOutItem::new(self.reference.clone(), self.manufacturer.clone(), self.mpn.clone()))
    }
}

/// A record of a substitutions file: for each field of its tool, a column with the
/// new value and one with the pattern to match (all other columns are ignored).
#[derive(Debug, Clone, PartialEq, Eq)]
pub struct SubstitutionRecord {
    pub eda: CSVEdaToolValue,
    pub fields: Vec<(String, String)>,
}

/// The error of building a substitution: the record lacks the columns named.
#[derive(Debug, Clone, PartialEq, Eq)]
pub enum SubstitutionRecordError {
    FieldMismatch(Vec<String>),
}

/// The error of a record of an unknown EDA tool.
#[derive(Debug, Clone, PartialEq, Eq)]
pub enum CSVSubstitutionRecordError {
    UnknownEDA { eda: String },
}

/// The upper camel case of a text, as `heck::ToUpperCamelCase` computes it.
pub uninterp spec fn upper_camel_case_of(s: Seq<char>) -> Seq<char>;

/// `heck::ToUpperCamelCase::to_upper_camel_case` on a text.
///
/// Trusted: claims only that the result is the upper camel case of the argument,
/// a function of the argument alone; heck's word splitting is not written out.
#[verifier::external_body]
fn to_upper_camel_case(s: &str) -> (r: String)
    ensures
        r@ == upper_camel_case_of(s@),
{
    heck::ToUpperCamelCase::to_upper_camel_case(s)
}

/// The value of the first column with the name.
pub open spec fn column(fields: Seq<(String, String)>, name: Seq<char>) -> Option<Seq<char>> {
    if exists|i: int| 0 <= i < fields.len() && (#[trigger] fields[i]).0@ == name {
        Some(fields[choose|i: int| 0 <= i < fields.len() && (#[trigger] fields[i]).0@ == name
            && forall|p: int| 0 <= p < i ==> (#[trigger] fields[p]).0@ != name].1@)
    } else {
        None
    }
}

/// Finds the value of the first column with the name.
fn find_column(fields: &Vec<(String, String)>, name: &str) -> (r: Option<String>)
    ensures
        match column(fields@, name@) {
            Some(v) => r matches Some(s) && s@ == v,
            None => r is None,
        },
{
    let mut k: usize = 0;
    while k < fields.len()
        invariant
            k <= fields@.len(),
            forall|p: int| 0 <= p < k ==> (#[trigger] fields@[p]).0@ != name@,
        decreases fields@.len() - k,
    {
        if str_eq(fields[k].0.as_str(), name) {
            proof {
                let c = choose|c: int| 0 <= c < fields@.len() && (#[trigger] fields@[c]).0@ == name@
                    && forall|p: int| 0 <= p < c ==> (#[trigger] fields@[p]).0@ != name@;
                if c < k {
                } else if c > k {
                    assert(fields@[k as int].0@ != name@);
                }
            }
            return Some(fields[k].1.clone());
        }
        k = k + 1;
    }
    None
}

/// The column names of a field of a substitution: the new value's and the
/// pattern's (`<field>_pattern`), both in upper camel case.
pub open spec fn substitution_columns(field: Seq<char>) -> (Seq<char>, Seq<char>) {
    (upper_camel_case_of(field), upper_camel_case_of(field + "_pattern"@))
}

/// The substitution rule of a record's columns, given the column names of each
/// field: for each field in turn an exact criterion on the pattern column and a
/// change to the value column; an error naming the columns of the first field
/// that lacks one of them.
pub fn substitution_from_columns(
    field_names: &Vec<String>,
    columns: &Vec<(String, String)>,
    fields: &Vec<(String, String)>,
) -> (r: Result<EdaSubstitutionRule, SubstitutionRecordError>)
    requires
        field_names@.len() == columns@.len(),
    ensures
        match r {
            Ok(rule) => {
                &&& forall|i: int| 0 <= i < columns@.len() ==> column(fields@, (#[trigger] columns@[i]).0@) is Some
                    && column(fields@, columns@[i].1@) is Some
                &&& rule.criteria@.len() == field_names@.len()
                &&& rule.transforms@.len() == field_names@.len()
                &&& forall|i: int| 0 <= i < field_names@.len() ==> {
                    &&& (#[trigger] rule.criteria@[i]) matches FieldCriterion::Exact(c) && c.field_name@ == field_names@[i]@
                        && c.field_pattern@ == column(fields@, columns@[i].1@)->0
                    &&& rule.transforms@[i].field_name@ == field_names@[i]@
                    &&& rule.transforms@[i].field_value@ == column(fields@, columns@[i].0@)->0
                }
            },
            Err(SubstitutionRecordError::FieldMismatch(names)) => exists|i: int| 0 <= i < columns@.len() && {
                &&& (column(fields@, (#[trigger] columns@[i]).0@) is None || column(fields@, columns@[i].1@) is None)
                &&& forall|p: int| 0 <= p < i ==> column(fields@, (#[trigger] columns@[p]).0@) is Some && column(fields@, columns@[p].1@) is Some
                &&& names@.len() == 2 && names@[0]@ == columns@[i].0@ && names@[1]@ == columns@[i].1@
            },
        },
{
    let mut criteria: Vec<FieldCriterion> = Vec::new();
    let mut transforms: Vec<EdaSubstitutionRuleTransformItem> = Vec::new();
    let mut k: usize = 0;
    while k < columns.len()
        invariant
            k <= columns@.len(),
            field_names@.len() == columns@.len(),
            criteria@.len() == k,
            transforms@.len() == k,
            forall|p: int| 0 <= p < k ==> column(fields@, (#[trigger] columns@[p]).0@) is Some && column(fields@, columns@[p].1@) is Some,
            forall|i: int| 0 <= i < k ==> {
                &&& (#[trigger] criteria@[i]) matches FieldCriterion::Exact(c) && c.field_name@ == field_names@[i]@
                    && c.field_pattern@ == column(fields@, columns@[i].1@)->0
                &&& transforms@[i].field_name@ == field_names@[i]@
                &&& transforms@[i].field_value@ == column(fields@, columns@[i].0@)->0
            },
        decreases columns@.len() - k,
    {
        let (name_column, pattern_column) = &columns[k];
        match (find_column(fields, name_column.as_str()), find_column(fields, pattern_column.as_str())) {
            (Some(value), Some(pattern)) => {
                criteria.push(FieldCriterion::Exact(ExactMatchCriterion::new(field_names[k].clone(), pattern)));
                transforms.push(EdaSubstitutionRuleTransformItem { field_name: field_names[k].clone(), field_value: value });
            },
            _ => {
                let mut names: Vec<String> = Vec::new();
                names.push(name_column.clone());
                names.push(pattern_column.clone());
                return Err(SubstitutionRecordError::FieldMismatch(names));
            },
        }
        k = k + 1;
    }
    Ok(EdaSubstitutionRule { criteria, transforms })
}

/// The name of a field's pattern column before case conversion: `<field>_pattern`.
fn pattern_column_name(field: &str) -> (r: String)
    ensures
        r@ == field@ + "_pattern"@,
{
    proof {
        reveal_strlit("_pattern");
    }
    let mut out: Vec<char> = Vec::new();
    push_str(&mut out, field);
    push_str(&mut out, "_pattern");
    let r = string_from_chars(out);
    assert(r@ =~= field@ + "_pattern"@);
    r
}

/// The rule of a record: for each field of its tool, in turn, an exact criterion
/// with the pattern column's value and a change to the value column's value.
#[verifier::opaque]
pub open spec fn substitution_built(record: SubstitutionRecord, rule: EdaSubstitutionRule) -> bool {
    &&& rule.criteria@.len() == 2
    &&& rule.transforms@.len() == 2
    &&& forall|i: int| 0 <= i < 2 ==> {
        let field = tool_field_names(record.eda)[i];
        let columns = substitution_columns(field);
        &&& (#[trigger] rule.criteria@[i]) matches FieldCriterion::Exact(c) && c.field_name@ == field
            && column(record.fields@, columns.1) == Some(c.field_pattern@)
        &&& rule.transforms@[i].field_name@ == field
        &&& column(record.fields@, columns.0) == Some(rule.transforms@[i].field_value@)
    }
}

/// A record lacks a column: the names are those of the first field whose value or
/// pattern column is missing.
#[verifier::opaque]
pub open spec fn substitution_refused(record: SubstitutionRecord, names: Seq<String>) -> bool {
    let first = substitution_columns(tool_field_names(record.eda)[0]);
    let second = substitution_columns(tool_field_names(record.eda)[1]);
    &&& names.len() == 2
    &&& if column(record.fields@, first.0) is None || column(record.fields@, first.1) is None {
        names[0]@ == first.0 && names[1]@ == first.1
    } else {
        &&& column(record.fields@, second.0) is None || column(record.fields@, second.1) is None
        &&& names[0]@ == second.0 && names[1]@ == second.1
    }
}

impl SubstitutionRecord {
    /// The substitution rule of the record, over the fields of its tool.
    #[verifier::rlimit(40)]
    pub fn build_eda_substitution(&self) -> (r: Result<EdaSubstitutionRule, SubstitutionRecordError>)
        ensures
            match r {
                Ok(rule) => substitution_built(*self, rule),
                Err(SubstitutionRecordError::FieldMismatch(names)) => substitution_refused(*self, names@),
            },
    {
        let f0 = tool_field_name(self.eda, 0);
        let f1 = tool_field_name(self.eda, 1);
        let c0 = (to_upper_camel_case(f0), to_upper_camel_case(pattern_column_name(f0).as_str()));
        let c1 = (to_upper_camel_case(f1), to_upper_camel_case(pattern_column_name(f1).as_str()));
        let mut field_names: Vec<String> = Vec::new();
        field_names.push(f0.to_owned());
        field_names.push(f1.to_owned());
        let mut columns: Vec<(String, String)> = Vec::new();
        columns.push(c0);
        columns.push(c1);
        let r = substitution_from_columns(&field_names, &columns, &self.fields);
        proof {
            reveal(substitution_built);
            reveal(substitution_refused);
            let names = tool_field_names(self.eda);
            assert(columns@[0].0@ == substitution_columns(names[0]).0 && columns@[0].1@ == substitution_columns(names[0]).1);
            assert(columns@[1].0@ == substitution_columns(names[1]).0 && columns@[1].1@ == substitution_columns(names[1]).1);
            assert(field_names@[0]@ == names[0] && field_names@[1]@ == names[1]);
            match &r {
                Ok(rule) => {
                    assert(column(self.fields@, columns@[0].0@) is Some && column(self.fields@, columns@[0].1@) is Some);
                    assert(column(self.fields@, columns@[1].0@) is Some && column(self.fields@, columns@[1].1@) is Some);
                },
                Err(SubstitutionRecordError::FieldMismatch(missing)) => {
                    let i = choose|i: int| 0 <= i < columns@.len() && {
                        &&& (column(self.fields@, (#[trigger] columns@[i]).0@) is None || column(self.fields@, columns@[i].1@) is None)
                        &&& forall|p: int| 0 <= p < i ==> column(self.fields@, (#[trigger] columns@[p]).0@) is Some && column(self.fields@, columns@[p].1@) is Some
                        &&& missing@.len() == 2 && missing@[0]@ == columns@[i].0@ && missing@[1]@ == columns@[i].1@
                    };
                    if i == 1 {
                        assert(column(self.fields@, columns@[0].0@) is Some && column(self.fields@, columns@[0].1@) is Some);
                    }
                },
            }
        }
        r
    }
}

/// A record of an assembly rules file.
#[derive(Debug, Clone, PartialEq, Eq)]
pub struct AssemblyRuleRecord {
    pub ref_des: String,
    pub manufacturer: String,
    pub mpn: String,
}

impl AssemblyRuleRecord {
    /// The assembly rule of the record.
    pub fn build_assembly_rule(&self) -> (r: Result<AssemblyRule, ()>)
        ensures
            r matches Ok(rule) && rule.ref_des@ == self.ref_des@ && rule.manufacturer@ == self.manufacturer@ && rule.mpn@ == self.mpn@,
    {
        Ok(AssemblyRule { ref_des: self.ref_des.clone(), manufacturer: self.manufacturer.clone(), mpn: self.mpn.clone() })
    }
}

} // verus!
