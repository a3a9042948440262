//! The items of a load-out file, and the records that store them.
use vstd::prelude::*;
use crate::loaders::csv::LoadOutItemRecord;
use crate::pnp::load_out_item::LoadOutItem;

verus! {

/// The load-out items of the records, in order.
pub fn load_items(records: &Vec<LoadOutItemRecord>) -> (r: Vec<LoadOutItem>)
    ensures
        r@.len() == records@.len(),
        forall|i: int| 0 <= i < r@.len() ==> (#[trigger] r@[i]).reference@ == records@[i].reference@
            && r@[i].manufacturer@ == records@[i].manufacturer@ && r@[i].mpn@ == records@[i].mpn@,
{
    let mut items: Vec<LoadOutItem> = Vec::new();
    let mut k: usize = 0;
    while k < records.len()
        invariant
            k <= records@.len(),
            items@.len() == k,
            forall|i: int| 0 <= i < k ==> (#[trigger] items@[i]).reference@ == records@[i].reference@
                && items@[i].manufacturer@ == records@[i].manufacturer@ && items@[i].mpn@ == records@[i].mpn@,
        decreases records@.len() - k,
    {
        match records[k].build_load_out_item() {
            Ok(item) => items.push(item),
            Err(_) => {},
        }
        k = k + 1;
    }
    items
}

/// The records that store the items, in order.
pub fn store_items(items: &[LoadOutItem]) -> (r: Vec<LoadOutItemRecord>)
    ensures
        r@.len() == items@.len(),
        forall|i: int| 0 <= i < r@.len() ==> (#[trigger] r@[i]).reference@ == items@[i].reference@
            && r@[i].manufacturer@ == items@[i].manufacturer@ && r@[i].mpn@ == items@[i].mpn@,
{
    let mut records: Vec<LoadOutItemRecord> = Vec::new();
    let mut k: usize = 0;
    while k < items.len()
        invariant
            k <= items@.len(),
            records@.len() == k,
            forall|i: int| 0 <= i < k ==> (#[trigger] records@[i]).reference@ == items@[i].reference@
                && records@[i].manufacturer@ == items@[i].manufacturer@ && records@[i].mpn@ == items@[i].mpn@,
        decreases items@.len() - k,
    {
        let item = &items[k];
        records.push(LoadOutItemRecord {
            reference: item.reference.clone(),
            manufacturer: item.manufacturer.clone(),
            mpn: item.mpn.clone(),
        });
        k = k + 1;
    }
    records
}

} // verus!
