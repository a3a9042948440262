//! Load-out items: a feeder reference and the part loaded in it.
use vstd::prelude::*;
use crate::pnp::part::Part;
use crate::text::str_eq;

verus! {

/// An item of a load-out: the feeder `reference` holding a part.
#[derive(Debug, Clone, PartialEq, Eq)]
pub struct LoadOutItem {
    pub reference: String,
    pub manufacturer: String,
    pub mpn: String,
}

impl LoadOutItem {
    pub fn new(reference: String, manufacturer: String, mpn: String) -> (r: LoadOutItem)
        ensures
            r.reference == reference,
            r.manufacturer == manufacturer,
            r.mpn == mpn,
    {
        LoadOutItem { reference, manufacturer, mpn }
    }

    /// Whether this item holds the given part.
    pub open spec fn holds(&self, part: (Seq<char>, Seq<char>)) -> bool {
        self.manufacturer@ == part.0 && self.mpn@ == part.1
    }

    pub fn copy(&self) -> (r: LoadOutItem)
        ensures
            r == *self,
    {
        LoadOutItem { reference: self.reference.clone(), manufacturer: self.manufacturer.clone(), mpn: self.mpn.clone() }
    }
}

/// Finds the first load-out item that holds the given part.
pub fn find_load_out_item_by_part(items: &[LoadOutItem], part: &Part) -> (r: Option<usize>)
    ensures
        match r {
            Some(k) => k < items@.len() && items@[k as int].holds(part@) && (forall|j: int| 0 <= j < k ==> !items@[j].holds(part@)),
            None => forall|j: int| 0 <= j < items@.len() ==> !items@[j].holds(part@),
        },
{
    let mut k: usize = 0;
    while k < items.len()
        invariant
            k <= items@.len(),
            forall|j: int| 0 <= j < k ==> !items@[j].holds(part@),
        decreases items@.len() - k,
    {
        if str_eq(items[k].manufacturer.as_str(), part.manufacturer.as_str()) && str_eq(items[k].mpn.as_str(), part.mpn.as_str()) {
            return Some(k);
        }
        k = k + 1;
    }
    None
}

} // verus!
