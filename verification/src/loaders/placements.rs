//! The records of the placement files of design variants.
use vstd::prelude::*;
use crate::planning::pcb::PcbSide;
use crate::pnp::part::Part;
use crate::pnp::placement::Placement;
use crate::pnp::decimal::DecimalValue;

verus! {

/// The side of a placement in a placement file.
#[derive(Debug, Clone, Copy, PartialEq, Eq, Structural)]
pub enum PlacementRecordPcbSide {
    Top,
    Bottom,
}

impl PlacementRecordPcbSide {
    /// The pcb side a record side names.
    pub fn to_pcb_side(&self) -> (r: PcbSide)
        ensures
            r == match self {
                PlacementRecordPcbSide::Top => PcbSide::Top,
                PlacementRecordPcbSide::Bottom => PcbSide::Bottom,
            },
    {
        match self {
            PlacementRecordPcbSide::Top => PcbSide::Top,
            PlacementRecordPcbSide::Bottom => PcbSide::Bottom,
        }
    }

    /// The record side of a pcb side.
    pub fn from_pcb_side(side: &PcbSide) -> (r: PlacementRecordPcbSide)
        ensures
            r == match side {
                PcbSide::Top => PlacementRecordPcbSide::Top,
                PcbSide::Bottom => PlacementRecordPcbSide::Bottom,
            },
    {
        match side {
            PcbSide::Top => PlacementRecordPcbSide::Top,
            PcbSide::Bottom => PlacementRecordPcbSide::Bottom,
        }
    }
}

/// A record of a placement file (see `EdaPlacement` for the coordinate system).
#[derive(Debug, Clone, PartialEq, Eq)]
pub struct PlacementRecord {
    pub ref_des: String,
    pub manufacturer: String,
    pub mpn: String,
    pub place: bool,
    pub pcb_side: PlacementRecordPcbSide,
    pub x: DecimalValue,
    pub y: DecimalValue,
    pub rotation: DecimalValue,
}

impl PlacementRecord {
    /// The placement of the record.
    pub fn as_placement(&self) -> (r: Placement)
        ensures
            r.ref_des == self.ref_des,
            r.part.manufacturer == self.manufacturer,
            r.part.mpn == self.mpn,
            r.place == self.place,
            r.pcb_side == match self.pcb_side {
                PlacementRecordPcbSide::Top => PcbSide::Top,
                PlacementRecordPcbSide::Bottom => PcbSide::Bottom,
            },
            r.x == self.x,
            r.y == self.y,
            r.rotation == self.rotation,
    {
        Placement {
            ref_des: self.ref_des.clone(),
            part: Part::new(self.manufacturer.clone(), self.mpn.clone()),
            place: self.place,
            pcb_side: self.pcb_side.to_pcb_side(),
            x: self.x,
            y: self.y,
            rotation: self.rotation,
        }
    }
}

/// The placements of the records, in order.
pub fn load_placements(records: &Vec<PlacementRecord>) -> (r: Vec<Placement>)
    ensures
        r@.len() == records@.len(),
        forall|i: int| 0 <= i < r@.len() ==> (#[trigger] r@[i]).ref_des == records@[i].ref_des && r@[i].part.manufacturer
            == records@[i].manufacturer && r@[i].part.mpn == records@[i].mpn && r@[i].place == records@[i].place && r@[i].x
            == records@[i].x && r@[i].y == records@[i].y && r@[i].rotation == records@[i].rotation,
{
    let mut placements: Vec<Placement> = Vec::new();
    let mut k: usize = 0;
    while k < records.len()
        invariant
            k <= records@.len(),
            placements@.len() == k,
            forall|i: int| 0 <= i < k ==> (#[trigger] placements@[i]).ref_des == records@[i].ref_des && placements@[i].part.manufacturer
                == records@[i].manufacturer && placements@[i].part.mpn == records@[i].mpn && placements@[i].place == records@[i].place
                && placements@[i].x == records@[i].x && placements@[i].y == records@[i].y && placements@[i].rotation
                == records@[i].rotation,
        decreases records@.len() - k,
    {
        placements.push(records[k].as_placement());
        k = k + 1;
    }
    placements
}

} // verus!
