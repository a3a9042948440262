//! Variant names.
use vstd::prelude::*;
use crate::text::{Comparison, lex_compare, compare_str, str_eq};
use crate::order::lemma_lex_total_order;
use crate::sorted_map::OrderedKey;

verus! {

/// The name of a variant of a design.
#[derive(Debug, Clone, PartialEq, Eq, PartialOrd, Ord, Hash)]
pub struct VariantName(String);

impl View for VariantName {
    type V = Seq<char>;

    closed spec fn view(&self) -> Seq<char> {
        self.0@
    }
}

impl VariantName {
    pub fn new(value: String) -> (r: VariantName)
        ensures
            r@ == value@,
    {
        VariantName(value)
    }

    pub fn as_str(&self) -> (r: &str)
        ensures
            r@ == self@,
    {
        self.0.as_str()
    }

    /// The text of this name (`Display`).
    pub fn to_string(&self) -> (r: String)
        ensures
            r@ == self@,
    {
        self.0.clone()
    }

    pub fn copy(&self) -> (r: VariantName)
        ensures
            r@ == self@,
    {
        VariantName(self.0.clone())
    }

    pub fn equals(&self, other: &VariantName) -> (r: bool)
        ensures
            r == (self@ == other@),
    {
        str_eq(self.0.as_str(), other.0.as_str())
    }
}

impl OrderedKey for VariantName {
    type KeyView = Seq<char>;

    open spec fn key_view(&self) -> Seq<char> {
        self@
    }

    open spec fn key_order(a: Seq<char>, b: Seq<char>) -> Comparison {
        lex_compare(a, b)
    }

    proof fn lemma_key_order(a: Seq<char>, b: Seq<char>, c: Seq<char>) {
        lemma_lex_total_order(a, b, c);
    }

    fn compare_key(&self, other: &VariantName) -> (r: Comparison) {
        compare_str(self.0.as_str(), other.0.as_str())
    }
}

impl std::str::FromStr for VariantName {
    type Err = String;

    fn from_str(s: &str) -> (r: Result<VariantName, String>)
        ensures
            r matches Ok(n) && n@ == s@,
    {
        Ok(VariantName(s.to_owned()))
    }
}

} // verus!
