//! Phase references.
use vstd::prelude::*;
use crate::text::{Comparison, lex_compare, compare_str, str_eq};
use crate::order::lemma_lex_total_order;
use crate::sorted_map::OrderedKey;

verus! {

/// A reference naming a phase, e.g. `top_1`.
#[derive(Debug, Clone, PartialEq, Eq, PartialOrd, Ord, Hash)]
pub struct Reference(String);

impl View for Reference {
    type V = Seq<char>;

    closed spec fn view(&self) -> Seq<char> {
        self.0@
    }
}

impl Reference {
    pub fn new(value: String) -> (r: Reference)
        ensures
            r@ == value@,
    {
        Reference(value)
    }

    pub fn as_str(&self) -> (r: &str)
        ensures
            r@ == self@,
    {
        self.0.as_str()
    }

    /// The text of this name (`Display`).
    pub fn to_string(&self) -> (r: String)
        ensures
            r@ == self@,
    {
        self.0.clone()
    }

    pub fn copy(&self) -> (r: Reference)
        ensures
            r@ == self@,
    {
        Reference(self.0.clone())
    }

    pub fn equals(&self, other: &Reference) -> (r: bool)
        ensures
            r == (self@ == other@),
    {
        str_eq(self.0.as_str(), other.0.as_str())
    }
}

impl OrderedKey for Reference {
    type KeyView = Seq<char>;

    open spec fn key_view(&self) -> Seq<char> {
        self@
    }

    open spec fn key_order(a: Seq<char>, b: Seq<char>) -> Comparison {
        lex_compare(a, b)
    }

    proof fn lemma_key_order(a: Seq<char>, b: Seq<char>, c: Seq<char>) {
        lemma_lex_total_order(a, b, c);
    }

    fn compare_key(&self, other: &Reference) -> (r: Comparison) {
        compare_str(self.0.as_str(), other.0.as_str())
    }
}

impl std::str::FromStr for Reference {
    type Err = String;

    fn from_str(s: &str) -> (r: Result<Reference, String>)
        ensures
            r matches Ok(n) && n@ == s@,
    {
        Ok(Reference(s.to_owned()))
    }
}

} // verus!
