//! Placements of an EDA tool, described by named fields.
use vstd::prelude::*;
use crate::planning::pcb::PcbSide;
use crate::pnp::decimal::DecimalValue;

verus! {

/// A named field of a placement, such as its package or value.
#[derive(Debug, Clone, PartialEq, Eq)]
pub struct EdaPlacementField {
    pub name: String,
    pub value: String,
}

impl View for EdaPlacementField {
    type V = (Seq<char>, Seq<char>);

    open spec fn view(&self) -> (Seq<char>, Seq<char>) {
        (self.name@, self.value@)
    }
}

impl EdaPlacementField {
    pub fn new(name: String, value: String) -> (r: EdaPlacementField)
        ensures
            r.name == name,
            r.value == value,
    {
        EdaPlacementField { name, value }
    }

    pub fn copy(&self) -> (r: EdaPlacementField)
        ensures
            r == *self,
    {
        EdaPlacementField { name: self.name.clone(), value: self.value.clone() }
    }
}

/// A placement of an EDA tool, in a right-handed cartesian coordinate system:
/// positive x is right, positive y is up, positive rotation is anti-clockwise,
/// in the range above -180 up to 180.
#[derive(Debug, Clone, PartialEq, Eq)]
pub struct EdaPlacement {
    pub ref_des: String,
    pub place: bool,
    pub fields: Vec<EdaPlacementField>,
    pub pcb_side: PcbSide,
    pub x: DecimalValue,
    pub y: DecimalValue,
    pub rotation: DecimalValue,
}

/// The values of the fields of a placement.
pub open spec fn field_views(fields: Seq<EdaPlacementField>) -> Seq<(Seq<char>, Seq<char>)> {
    fields.map_values(|f: EdaPlacementField| f@)
}

impl View for EdaPlacement {
    type V = (Seq<char>, bool, Seq<(Seq<char>, Seq<char>)>, PcbSide, DecimalValue, DecimalValue, DecimalValue);

    open spec fn view(&self) -> (Seq<char>, bool, Seq<(Seq<char>, Seq<char>)>, PcbSide, DecimalValue, DecimalValue, DecimalValue) {
        (self.ref_des@, self.place, field_views(self.fields@), self.pcb_side, self.x, self.y, self.rotation)
    }
}

/// A copy of a list of fields.
pub fn copy_fields(fields: &Vec<EdaPlacementField>) -> (r: Vec<EdaPlacementField>)
    ensures
        r@ == fields@,
{
    let mut out: Vec<EdaPlacementField> = Vec::new();
    let mut k: usize = 0;
    while k < fields.len()
        invariant
            k <= fields@.len(),
            out@ == fields@.take(k as int),
        decreases fields@.len() - k,
    {
        out.push(fields[k].copy());
        k = k + 1;
        assert(out@ =~= fields@.take(k as int));
    }
    assert(fields@.take(k as int) =~= fields@);
    out
}

impl EdaPlacement {
    /// A copy of this placement.
    pub fn copy(&self) -> (r: EdaPlacement)
        ensures
            r.ref_des == self.ref_des,
            r.place == self.place,
            r.fields@ == self.fields@,
            r.pcb_side == self.pcb_side,
            r.x == self.x,
            r.y == self.y,
            r.rotation == self.rotation,
            r@ == self@,
    {
        EdaPlacement {
            ref_des: self.ref_des.clone(),
            place: self.place,
            fields: copy_fields(&self.fields),
            pcb_side: self.pcb_side,
            x: self.x,
            y: self.y,
            rotation: self.rotation,
        }
    }
}

impl Default for EdaPlacement {
    /// An empty placement on the top side, at the origin, not to be placed.
    fn default() -> (r: EdaPlacement)
        ensures
            r.ref_des@.len() == 0,
            !r.place,
            r.fields@.len() == 0,
            r.pcb_side == PcbSide::Top,
            r.x.numerator() == 0,
            r.y.numerator() == 0,
            r.rotation.numerator() == 0,
    {
        let zero = DecimalValue::new(false, 0, 0);
        EdaPlacement {
            ref_des: String::new(),
            place: false,
            fields: Vec::new(),
            pcb_side: PcbSide::Top,
            x: zero,
            y: zero,
            rotation: zero,
        }
    }
}

} // verus!
