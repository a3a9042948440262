//! Designs and their variants.
use vstd::prelude::*;
use crate::text::{Comparison, lex_compare, compare_str, str_eq, push_str, string_from_chars};
use crate::order::{lemma_lex_total_order, lemma_element_total_order};
use crate::pnp::object_path::element_compare;
use crate::sorted_map::OrderedKey;

verus! {

/// The name of a design.
#[derive(Debug, Clone, PartialEq, Eq, PartialOrd, Ord, Hash)]
pub struct DesignName(String);

impl View for DesignName {
    type V = Seq<char>;

    closed spec fn view(&self) -> Seq<char> {
        self.0@
    }
}

impl DesignName {
    pub fn new(value: String) -> (r: DesignName)
        ensures
            r@ == value@,
    {
        DesignName(value)
    }

    pub fn as_str(&self) -> (r: &str)
        ensures
            r@ == self@,
    {
        self.0.as_str()
    }

    /// The text of this name (`Display`).
    pub fn to_string(&self) -> (r: String)
        ensures
            r@ == self@,
    {
        self.0.clone()
    }

    pub fn copy(&self) -> (r: DesignName)
        ensures
            r@ == self@,
    {
        DesignName(self.0.clone())
    }

    pub fn equals(&self, other: &DesignName) -> (r: bool)
        ensures
            r == (self@ == other@),
    {
        str_eq(self.0.as_str(), other.0.as_str())
    }
}

impl OrderedKey for DesignName {
    type KeyView = Seq<char>;

    open spec fn key_view(&self) -> Seq<char> {
        self@
    }

    open spec fn key_order(a: Seq<char>, b: Seq<char>) -> Comparison {
        lex_compare(a, b)
    }

    proof fn lemma_key_order(a: Seq<char>, b: Seq<char>, c: Seq<char>) {
        lemma_lex_total_order(a, b, c);
    }

    fn compare_key(&self, other: &DesignName) -> (r: Comparison) {
        compare_str(self.0.as_str(), other.0.as_str())
    }
}

impl std::str::FromStr for DesignName {
    type Err = DesignNameError;

    fn from_str(s: &str) -> (r: Result<DesignName, DesignNameError>)
        ensures
            r matches Ok(n) && n@ == s@,
    {
        Ok(DesignName(s.to_owned()))
    }
}

/// The error of building a design name.
#[derive(Debug, Clone, PartialEq, Eq)]
pub struct DesignNameError;

/// A variant of a design.
#[derive(Debug, Clone, PartialEq, Eq, PartialOrd, Ord, Hash)]
pub struct DesignVariant {
    pub design_name: DesignName,
    pub variant_name: crate::planning::variant::VariantName,
}

impl View for DesignVariant {
    type V = (Seq<char>, Seq<char>);

    open spec fn view(&self) -> (Seq<char>, Seq<char>) {
        (self.design_name@, self.variant_name@)
    }
}

impl DesignVariant {
    pub fn copy(&self) -> (r: DesignVariant)
        ensures
            r@ == self@,
    {
        DesignVariant { design_name: self.design_name.copy(), variant_name: self.variant_name.copy() }
    }

    pub fn equals(&self, other: &DesignVariant) -> (r: bool)
        ensures
            r == (self@ == other@),
    {
        self.design_name.equals(&other.design_name) && self.variant_name.equals(&other.variant_name)
    }

    /// Compares by design name, then by variant name (the derived `Ord`).
    pub fn compare(&self, other: &DesignVariant) -> (r: Comparison)
        ensures
            r == element_compare(self@, other@),
    {
        match compare_str(self.design_name.as_str(), other.design_name.as_str()) {
            Comparison::Equal => compare_str(self.variant_name.as_str(), other.variant_name.as_str()),
            c => c,
        }
    }

    /// The text of this design variant (`Display`): `design-variant`.
    pub fn to_string(&self) -> (r: String)
        ensures
            r@ == self.design_name@ + "-"@ + self.variant_name@,
    {
        let mut out: Vec<char> = Vec::new();
        push_str(&mut out, self.design_name.as_str());
        push_str(&mut out, "-");
        push_str(&mut out, self.variant_name.as_str());
        string_from_chars(out)
    }
}

impl OrderedKey for DesignVariant {
    type KeyView = (Seq<char>, Seq<char>);

    open spec fn key_view(&self) -> (Seq<char>, Seq<char>) {
        self@
    }

    open spec fn key_order(a: (Seq<char>, Seq<char>), b: (Seq<char>, Seq<char>)) -> Comparison {
        element_compare(a, b)
    }

    proof fn lemma_key_order(a: (Seq<char>, Seq<char>), b: (Seq<char>, Seq<char>), c: (Seq<char>, Seq<char>)) {
        lemma_element_total_order(a, b, c);
    }

    fn compare_key(&self, other: &DesignVariant) -> (r: Comparison) {
        self.compare(other)
    }
}

} // verus!
