//! The parts of a parts file.
use vstd::prelude::*;
use crate::loaders::csv::PartRecord;
use crate::pnp::part::Part;

verus! {

/// The parts of the records, in order.
pub fn load_parts(records: &Vec<PartRecord>) -> (r: Vec<Part>)
    ensures
        r@.len() == records@.len(),
        forall|i: int| 0 <= i < r@.len() ==> (#[trigger] r@[i])@ == (records@[i].manufacturer@, records@[i].mpn@),
{
    let mut parts: Vec<Part> = Vec::new();
    let mut k: usize = 0;
    while k < records.len()
        invariant
            k <= records@.len(),
            parts@.len() == k,
            forall|i: int| 0 <= i < k ==> (#[trigger] parts@[i])@ == (records@[i].manufacturer@, records@[i].mpn@),
        decreases records@.len() - k,
    {
        match records[k].build_part() {
            Ok(part) => parts.push(part),
            Err(_) => {},
        }
        k = k + 1;
    }
    parts
}

} // verus!
