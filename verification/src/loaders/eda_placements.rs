//! The placements of DipTrace placement files.
use vstd::prelude::*;
use crate::eda::diptrace::csv::{DiptracePlacementRecord, decimal_magnitude_limit, placement_of_record};
use crate::eda::placement::EdaPlacement;

verus! {

/// The placements of the records, in order.
pub fn load_eda_placements(records: &Vec<DiptracePlacementRecord>) -> (r: Vec<EdaPlacement>)
    requires
        forall|i: int| 0 <= i < records@.len() ==> (#[trigger] records@[i]).rotation.scale <= 28
            && records@[i].rotation.magnitude < decimal_magnitude_limit(),
    ensures
        r@.len() == records@.len(),
        forall|i: int| 0 <= i < r@.len() ==> placement_of_record(records@[i], #[trigger] r@[i]),
{
    let mut placements: Vec<EdaPlacement> = Vec::new();
    let mut k: usize = 0;
    while k < records.len()
        invariant
            k <= records@.len(),
            forall|i: int| 0 <= i < records@.len() ==> (#[trigger] records@[i]).rotation.scale <= 28
                && records@[i].rotation.magnitude < decimal_magnitude_limit(),
            placements@.len() == k,
            forall|i: int| 0 <= i < k ==> placement_of_record(records@[i], #[trigger] placements@[i]),
        decreases records@.len() - k,
    {
        let record = &records[k];
        proof {
            assert(records@[k as int].rotation.scale <= 28);
        }
        match record.build_eda_placement() {
            Ok(p) => placements.push(p),
            Err(_) => {},
        }
        k = k + 1;
    }
    placements
}

} // verus!
