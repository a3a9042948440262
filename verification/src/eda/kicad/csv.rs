//! The records of KiCad placement files.
use vstd::prelude::*;
use crate::eda::placement::{EdaPlacement, EdaPlacementField};
use crate::planning::pcb::PcbSide;
use crate::pnp::decimal::DecimalValue;

verus! {

/// The error of building a placement from a KiCad record; no record produces it.
#[derive(Debug, Clone, Copy, PartialEq, Eq, Structural)]
pub enum KiCadPlacementRecordError {
    Unknown,
}

/// The side of a KiCad placement.
#[derive(Debug, Clone, Copy, PartialEq, Eq, Structural)]
pub enum KiCadPcbSide {
    Top,
    Bottom,
}

/// A record of a KiCad placement file.
#[derive(Debug, Clone, PartialEq, Eq)]
pub struct KiCadPlacementRecord {
    pub ref_des: String,
    pub package: String,
    pub val: String,
    pub side: KiCadPcbSide,
}

impl KiCadPlacementRecord {
    /// The placement of the record, to be placed, with its `package` and `val`
    /// fields, at the origin.
    pub fn build_eda_placement(&self) -> (r: Result<EdaPlacement, KiCadPlacementRecordError>)
        ensures
            r matches Ok(p) && {
                &&& p.ref_des@ == self.ref_des@
                &&& p.place
                &&& p.fields@.len() == 2
                &&& p.fields@[0].name@ == "package"@ && p.fields@[0].value@ == self.package@
                &&& p.fields@[1].name@ == "val"@ && p.fields@[1].value@ == self.val@
                &&& p.pcb_side == match self.side {
                    KiCadPcbSide::Top => PcbSide::Top,
                    KiCadPcbSide::Bottom => PcbSide::Bottom,
                }
                &&& p.x.numerator() == 0 && p.y.numerator() == 0 && p.rotation.numerator() == 0
            },
    {
        let mut fields: Vec<EdaPlacementField> = Vec::new();
        fields.push(EdaPlacementField::new("package".to_owned(), self.package.clone()));
        fields.push(EdaPlacementField::new("val".to_owned(), self.val.clone()));
        let zero = DecimalValue::new(false, 0, 0);
        Ok(EdaPlacement {
            ref_des: self.ref_des.clone(),
            place: true,
            fields,
            pcb_side: match self.side {
                KiCadPcbSide::Top => PcbSide::Top,
                KiCadPcbSide::Bottom => PcbSide::Bottom,
            },
            x: zero,
            y: zero,
            rotation: zero,
        })
    }
}

} // verus!
