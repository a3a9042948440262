//! Planning: projects, their phases, processes, placements and reports.
use vstd::prelude::*;
use crate::text::{Comparison, lex_compare, compare_str, str_eq};
use crate::order::lemma_lex_total_order;
use crate::sorted_map::OrderedKey;

pub mod reference;
pub mod variant;
pub mod design;
pub mod process;
pub mod pcb;
pub mod pcb_units;
pub mod part;
pub mod placement;
pub mod placement_update;
pub mod planner;
pub mod phase;
pub mod load_out;
pub mod operation_history;
pub mod project;
pub mod report;
pub mod artifacts;
pub mod refresh;

verus! {

/// The source of a load-out, e.g. a file name.
#[derive(Debug, Clone, PartialEq, Eq, PartialOrd, Ord, Hash)]
pub struct LoadOutSource(String);

impl View for LoadOutSource {
    type V = Seq<char>;

    closed spec fn view(&self) -> Seq<char> {
        self.0@
    }
}

impl LoadOutSource {
    pub fn new(value: String) -> (r: LoadOutSource)
        ensures
            r@ == value@,
    {
        LoadOutSource(value)
    }

    pub fn as_str(&self) -> (r: &str)
        ensures
            r@ == self@,
    {
        self.0.as_str()
    }

    /// The text of this name (`Display`).
    pub fn to_string(&self) -> (r: String)
        ensures
            r@ == self@,
    {
        self.0.clone()
    }

    pub fn copy(&self) -> (r: LoadOutSource)
        ensures
            r@ == self@,
    {
        LoadOutSource(self.0.clone())
    }

    pub fn equals(&self, other: &LoadOutSource) -> (r: bool)
        ensures
            r == (self@ == other@),
    {
        str_eq(self.0.as_str(), other.0.as_str())
    }
}

impl OrderedKey for LoadOutSource {
    type KeyView = Seq<char>;

    open spec fn key_view(&self) -> Seq<char> {
        self@
    }

    open spec fn key_order(a: Seq<char>, b: Seq<char>) -> Comparison {
        lex_compare(a, b)
    }

    proof fn lemma_key_order(a: Seq<char>, b: Seq<char>, c: Seq<char>) {
        lemma_lex_total_order(a, b, c);
    }

    fn compare_key(&self, other: &LoadOutSource) -> (r: Comparison) {
        compare_str(self.0.as_str(), other.0.as_str())
    }
}

impl std::str::FromStr for LoadOutSource {
    type Err = String;

    fn from_str(s: &str) -> (r: Result<LoadOutSource, String>)
        ensures
            r matches Ok(n) && n@ == s@,
    {
        Ok(LoadOutSource(s.to_owned()))
    }
}

/// The path of a pcb unit, e.g. `panel=1::unit=1`.
#[derive(Debug, Clone, PartialEq, Eq, PartialOrd, Ord, Hash)]
pub struct UnitPath(String);

impl View for UnitPath {
    type V = Seq<char>;

    closed spec fn view(&self) -> Seq<char> {
        self.0@
    }
}

impl UnitPath {
    pub fn new(value: String) -> (r: UnitPath)
        ensures
            r@ == value@,
    {
        UnitPath(value)
    }

    pub fn as_str(&self) -> (r: &str)
        ensures
            r@ == self@,
    {
        self.0.as_str()
    }

    /// The text of this name (`Display`).
    pub fn to_string(&self) -> (r: String)
        ensures
            r@ == self@,
    {
        self.0.clone()
    }

    pub fn copy(&self) -> (r: UnitPath)
        ensures
            r@ == self@,
    {
        UnitPath(self.0.clone())
    }

    pub fn equals(&self, other: &UnitPath) -> (r: bool)
        ensures
            r == (self@ == other@),
    {
        str_eq(self.0.as_str(), other.0.as_str())
    }
}

impl OrderedKey for UnitPath {
    type KeyView = Seq<char>;

    open spec fn key_view(&self) -> Seq<char> {
        self@
    }

    open spec fn key_order(a: Seq<char>, b: Seq<char>) -> Comparison {
        lex_compare(a, b)
    }

    proof fn lemma_key_order(a: Seq<char>, b: Seq<char>, c: Seq<char>) {
        lemma_lex_total_order(a, b, c);
    }

    fn compare_key(&self, other: &UnitPath) -> (r: Comparison) {
        compare_str(self.0.as_str(), other.0.as_str())
    }
}

impl std::str::FromStr for UnitPath {
    type Err = String;

    fn from_str(s: &str) -> (r: Result<UnitPath, String>)
        ensures
            r matches Ok(n) && n@ == s@,
    {
        Ok(UnitPath(s.to_owned()))
    }
}


/// A sort direction.
#[derive(Debug, Clone, Copy, PartialEq, Eq, PartialOrd, Ord, Hash, Structural)]
pub enum SortOrder {
    Asc,
    Desc,
}

impl SortOrder {
    /// The name of the direction (`Display`).
    pub fn to_string(&self) -> (r: String)
        ensures
            r@ == (match self {
                SortOrder::Asc => "Asc"@,
                SortOrder::Desc => "Desc"@,
            }),
    {
        match self {
            SortOrder::Asc => "Asc".to_owned(),
            SortOrder::Desc => "Desc".to_owned(),
        }
    }
}

} // verus!
