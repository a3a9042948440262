//! The values of command-line arguments and the library values they name.
use vstd::prelude::*;
use crate::eda::EdaTool;
use crate::planning::pcb::{PcbKind, PcbSide};
use crate::planning::SortOrder;
use crate::planning::placement::PlacementSortingMode;
use crate::eda::assembly_variant::AssemblyVariant;

verus! {

/// A sort direction argument (`ASC`, `DESC`).
#[derive(Debug, Clone, Copy, PartialEq, Eq, Structural)]
pub enum SortOrderArg {
    Asc,
    Desc,
}

impl SortOrderArg {
    pub fn to_sort_order(&self) -> (r: SortOrder)
        ensures
            r == match self {
                SortOrderArg::Asc => SortOrder::Asc,
                SortOrderArg::Desc => SortOrder::Desc,
            },
    {
        match self {
            SortOrderArg::Asc => SortOrder::Asc,
            SortOrderArg::Desc => SortOrder::Desc,
        }
    }
}

/// A placement sorting mode argument (`FEEDER_REFERENCE`, `PCB_UNIT`).
#[derive(Debug, Clone, Copy, PartialEq, Eq, Structural)]
pub enum PlacementSortingModeArg {
    FeederReference,
    PcbUnit,
}

impl PlacementSortingModeArg {
    pub fn to_placement_sorting_mode(&self) -> (r: PlacementSortingMode)
        ensures
            r == match self {
                PlacementSortingModeArg::FeederReference => PlacementSortingMode::FeederReference,
                PlacementSortingModeArg::PcbUnit => PlacementSortingMode::PcbUnit,
            },
    {
        match self {
            PlacementSortingModeArg::FeederReference => PlacementSortingMode::FeederReference,
            PlacementSortingModeArg::PcbUnit => PlacementSortingMode::PcbUnit,
        }
    }
}

/// The project argument.
#[derive(Debug, Clone, PartialEq, Eq)]
pub struct ProjectArgs {
    pub project: Option<String>,
}

/// A pcb side argument (`top`, `bottom`).
#[derive(Debug, Clone, Copy, PartialEq, Eq, Structural)]
pub enum PcbSideArg {
    Top,
    Bottom,
}

impl PcbSideArg {
    /// The pcb side the argument names (`From<PcbSideArg>`).
    pub fn to_pcb_side(&self) -> (r: PcbSide)
        ensures
            r == match self {
                PcbSideArg::Top => PcbSide::Top,
                PcbSideArg::Bottom => PcbSide::Bottom,
            },
    {
        match self {
            PcbSideArg::Top => PcbSide::Top,
            PcbSideArg::Bottom => PcbSide::Bottom,
        }
    }
}

/// A pcb kind argument (`single`, `panel`).
#[derive(Debug, Clone, Copy, PartialEq, Eq, Structural)]
pub enum PcbKindArg {
    Single,
    Panel,
}

impl PcbKindArg {
    /// The pcb kind the argument names (`From<PcbKindArg>`).
    pub fn to_pcb_kind(&self) -> (r: PcbKind)
        ensures
            r == match self {
                PcbKindArg::Single => PcbKind::Single,
                PcbKindArg::Panel => PcbKind::Panel,
            },
    {
        match self {
            PcbKindArg::Single => PcbKind::Single,
            PcbKindArg::Panel => PcbKind::Panel,
        }
    }
}

/// An EDA tool argument (`diptrace`, `kicad`).
#[derive(Debug, Clone, Copy, PartialEq, Eq, Structural)]
pub enum EdaToolArg {
    DipTrace,
    KiCad,
}

impl EdaToolArg {
    pub fn build(&self) -> (r: EdaTool)
        ensures
            r == match self {
                EdaToolArg::DipTrace => EdaTool::DipTrace,
                EdaToolArg::KiCad => EdaTool::KiCad,
            },
    {
        match self {
            EdaToolArg::DipTrace => EdaTool::DipTrace,
            EdaToolArg::KiCad => EdaTool::KiCad,
        }
    }
}

/// The arguments naming an assembly variant: its name and the reference
/// designators of its placements (all placements where the list is empty).
#[derive(Debug, Clone)]
pub struct AssemblyVariantArgs {
    pub name: String,
    pub ref_des_list: Vec<String>,
}

/// Errors of building an assembly variant from its arguments.
#[derive(Debug, Clone, Copy, PartialEq, Eq, Structural)]
pub enum AssemblyVariantError {
    Unknown,
}

/// Errors of turning the command-line options into an event.
#[derive(Debug, Clone, Copy, PartialEq, Eq, Structural)]
pub enum EventError {
    Nothing,
    AssemblyVariantError(AssemblyVariantError),
}

/// A copy of a list of texts.
fn copy_texts(list: &Vec<String>) -> (r: Vec<String>)
    ensures
        r@ == list@,
{
    let mut r: Vec<String> = Vec::new();
    let mut k: usize = 0;
    while k < list.len()
        invariant
            k <= list@.len(),
            r@ == list@.take(k as int),
        decreases list@.len() - k,
    {
        r.push(list[k].clone());
        proof {
            assert(list@.take(k as int + 1) == list@.take(k as int).push(list@[k as int]));
        }
        k = k + 1;
    }
    proof {
        assert(list@.take(k as int) == list@);
    }
    r
}

impl AssemblyVariantArgs {
    /// The assembly variant the arguments name; building it always succeeds.
    pub fn build_assembly_variant(&self) -> (r: Result<AssemblyVariant, AssemblyVariantError>)
        ensures
            r matches Ok(v) && v.name == self.name && v.ref_des_list@ == self.ref_des_list@,
    {
        Ok(AssemblyVariant::new(self.name.clone(), copy_texts(&self.ref_des_list)))
    }
}

} // verus!
