//! The part mappings of a part mappings file.
use vstd::prelude::*;
use crate::loaders::csv::{PartMappingRecord, PartMappingRecordError, first_equal_part, criterion_views, mapping_criteria};
use crate::part_mapper::part_mapping::PartMapping;
use crate::pnp::part::Part;

verus! {

/// The mapping a record builds from the parts.
pub open spec fn mapping_of_record(record: PartMappingRecord, parts: Seq<Part>, m: PartMapping) -> bool {
    &&& first_equal_part(parts, (record.manufacturer@, record.mpn@)) matches Some(i) && *m.part == parts[i]
    &&& m.criteria@.len() == 1
    &&& criterion_views(m.criteria@[0].criteria@) == mapping_criteria(record.eda, record.fields@)
}

/// The part mappings of the records, in order; the error of the first record whose
/// part is not among the parts.
pub fn load_part_mappings<'part>(parts: &'part Vec<Part>, records: &Vec<PartMappingRecord>) -> (r: Result<Vec<PartMapping<'part>>, PartMappingRecordError>)
    ensures
        match r {
            Ok(mappings) => {
                &&& mappings@.len() == records@.len()
                &&& forall|i: int| 0 <= i < records@.len() ==> mapping_of_record(records@[i], parts@, #[trigger] mappings@[i])
            },
            Err(PartMappingRecordError::NoMatchingPart { criteria }) => exists|i: int| 0 <= i < records@.len() && {
                &&& first_equal_part(parts@, ((#[trigger] records@[i]).manufacturer@, records@[i].mpn@)) is None
                &&& criteria.manufacturer@ == records@[i].manufacturer@ && criteria.mpn@ == records@[i].mpn@
                &&& forall|p: int| 0 <= p < i ==> first_equal_part(parts@, ((#[trigger] records@[p]).manufacturer@, records@[p].mpn@)) is Some
            },
            Err(PartMappingRecordError::UnableToBuildCriteria) => false,
        },
{
    let mut mappings: Vec<PartMapping<'part>> = Vec::new();
    let mut k: usize = 0;
    while k < records.len()
        invariant
            k <= records@.len(),
            mappings@.len() == k,
            forall|i: int| 0 <= i < k ==> mapping_of_record(records@[i], parts@, #[trigger] mappings@[i]),
            forall|p: int| 0 <= p < k ==> first_equal_part(parts@, ((#[trigger] records@[p]).manufacturer@, records@[p].mpn@)) is Some,
        decreases records@.len() - k,
    {
        match records[k].build_part_mapping(parts.as_slice()) {
            Ok(mapping) => mappings.push(mapping),
            Err(e) => {
                return Err(e);
            },
        }
        k = k + 1;
    }
    Ok(mappings)
}

} // verus!
