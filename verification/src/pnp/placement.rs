//! Placements: a part placed at a position on a side of a pcb.
use vstd::prelude::*;
use crate::pnp::part::Part;
use crate::pnp::decimal::DecimalValue;
use crate::planning::pcb::PcbSide;
use crate::text::{Comparison, lex_compare, compare_str, str_eq};
use crate::order::lemma_lex_total_order;
use crate::sorted_map::OrderedKey;

verus! {

/// A placement, in a right-handed cartesian coordinate system: positive `x` is
/// right, positive `y` is up, positive rotation is anti-clockwise (`-180 < r <= 180`).
#[derive(Debug, Clone, PartialEq, Eq)]
pub struct Placement {
    pub ref_des: String,
    pub part: Part,
    pub place: bool,
    pub pcb_side: PcbSide,
    pub x: DecimalValue,
    pub y: DecimalValue,
    pub rotation: DecimalValue,
}

impl Placement {
    /// Two placements are equal when their texts, flags and side are equal and
    /// their coordinates denote the same numbers.
    pub open spec fn same_as(&self, other: &Placement) -> bool {
        &&& self.ref_des@ == other.ref_des@
        &&& self.part@ == other.part@
        &&& self.place == other.place
        &&& self.pcb_side == other.pcb_side
        &&& self.x.same_number(other.x)
        &&& self.y.same_number(other.y)
        &&& self.rotation.same_number(other.rotation)
    }

    pub fn equals(&self, other: &Placement) -> (r: bool)
        ensures
            r == self.same_as(other),
    {
        str_eq(self.ref_des.as_str(), other.ref_des.as_str()) && self.part.equals(&other.part) && self.place
            == other.place && self.pcb_side == other.pcb_side && self.x.equals(&other.x) && self.y.equals(&other.y)
            && self.rotation.equals(&other.rotation)
    }

    pub fn copy(&self) -> (r: Placement)
        ensures
            r == *self,
    {
        Placement {
            ref_des: self.ref_des.clone(),
            part: self.part.copy(),
            place: self.place,
            pcb_side: self.pcb_side,
            x: self.x,
            y: self.y,
            rotation: self.rotation,
        }
    }
}

/// A reference designator, e.g. `R1`; reference designators order as texts.
#[derive(Debug, Clone, PartialEq, Eq, PartialOrd, Ord, Hash)]
pub struct RefDes(String);

impl View for RefDes {
    type V = Seq<char>;

    closed spec fn view(&self) -> Seq<char> {
        self.0@
    }
}

impl RefDes {
    pub fn new(value: String) -> (r: RefDes)
        ensures
            r@ == value@,
    {
        RefDes(value)
    }

    pub fn as_str(&self) -> (r: &str)
        ensures
            r@ == self@,
    {
        self.0.as_str()
    }

    /// The text of the reference designator (`Display`).
    pub fn to_string(&self) -> (r: String)
        ensures
            r@ == self@,
    {
        self.0.clone()
    }
}

impl OrderedKey for RefDes {
    type KeyView = Seq<char>;

    open spec fn key_view(&self) -> Seq<char> {
        self@
    }

    open spec fn key_order(a: Seq<char>, b: Seq<char>) -> Comparison {
        lex_compare(a, b)
    }

    proof fn lemma_key_order(a: Seq<char>, b: Seq<char>, c: Seq<char>) {
        lemma_lex_total_order(a, b, c);
    }

    fn compare_key(&self, other: &RefDes) -> (r: Comparison) {
        compare_str(self.0.as_str(), other.0.as_str())
    }
}

} // verus!
