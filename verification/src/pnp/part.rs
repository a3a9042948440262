//! Parts: a manufacturer and a manufacturer part number.
use vstd::prelude::*;
use crate::pnp::object_path::element_compare;
use crate::text::{Comparison, compare_str, str_eq};
use crate::sorted_map::OrderedKey;
use crate::order::lemma_element_total_order;

verus! {

/// A part, identified by its manufacturer and manufacturer part number.
#[derive(Debug, Clone, PartialEq, Eq, PartialOrd, Ord, Hash)]
pub struct Part {
    pub manufacturer: String,
    pub mpn: String,
}

impl View for Part {
    type V = (Seq<char>, Seq<char>);

    open spec fn view(&self) -> (Seq<char>, Seq<char>) {
        (self.manufacturer@, self.mpn@)
    }
}

impl Part {
    pub fn new(manufacturer: String, mpn: String) -> (r: Part)
        ensures
            r.manufacturer == manufacturer,
            r.mpn == mpn,
    {
        Part { manufacturer, mpn }
    }

    /// A copy of this part.
    pub fn copy(&self) -> (r: Part)
        ensures
            r == *self,
    {
        Part { manufacturer: self.manufacturer.clone(), mpn: self.mpn.clone() }
    }

    /// Whether two parts have the same manufacturer and part number.
    pub fn equals(&self, other: &Part) -> (r: bool)
        ensures
            r == (self@ == other@),
    {
        str_eq(self.manufacturer.as_str(), other.manufacturer.as_str()) && str_eq(self.mpn.as_str(), other.mpn.as_str())
    }

    /// Compares by manufacturer, then by part number (the derived `Ord`).
    pub fn compare(&self, other: &Part) -> (r: Comparison)
        ensures
            r == element_compare(self@, other@),
    {
        match compare_str(self.manufacturer.as_str(), other.manufacturer.as_str()) {
            Comparison::Equal => compare_str(self.mpn.as_str(), other.mpn.as_str()),
            c => c,
        }
    }
}

impl OrderedKey for Part {
    type KeyView = (Seq<char>, Seq<char>);

    open spec fn key_view(&self) -> (Seq<char>, Seq<char>) {
        self@
    }

    open spec fn key_order(a: (Seq<char>, Seq<char>), b: (Seq<char>, Seq<char>)) -> Comparison {
        element_compare(a, b)
    }

    proof fn lemma_key_order(a: (Seq<char>, Seq<char>), b: (Seq<char>, Seq<char>), c: (Seq<char>, Seq<char>)) {
        lemma_element_total_order(a, b, c);
    }

    fn compare_key(&self, other: &Part) -> (r: Comparison) {
        self.compare(other)
    }
}

} // verus!
