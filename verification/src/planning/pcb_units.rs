//! The unit configuration of a pcb: how many units it has, its designs, and
//! which design each unit holds.
use vstd::prelude::*;
use crate::text::Comparison;
use crate::order::int_compare;
use crate::sorted_map::{SortedMap, OrderedKey};
use crate::planning::design::DesignName;

verus! {

impl OrderedKey for u16 {
    type KeyView = int;

    open spec fn key_view(&self) -> int {
        *self as int
    }

    open spec fn key_order(a: int, b: int) -> Comparison {
        int_compare(a, b)
    }

    proof fn lemma_key_order(a: int, b: int, c: int) {
    }

    fn compare_key(&self, other: &u16) -> (r: Comparison) {
        if *self < *other {
            Comparison::Less
        } else if *self > *other {
            Comparison::Greater
        } else {
            Comparison::Equal
        }
    }
}

/// The units of a pcb: their number, the designs of the pcb, the design (by its
/// index) that each unit holds, and whether the pcb was changed since it was
/// loaded. The pcb's placement offset and panel sizes are held elsewhere.
pub struct PcbUnits {
    pub units: u16,
    pub design_names: Vec<DesignName>,
    pub unit_map: SortedMap<u16, usize>,
    pub modified: bool,
}

/// Why a unit configuration was refused.
#[derive(Debug, Clone, Copy, PartialEq, Eq, Structural)]
pub enum PcbUnitConfigurationError {
    /// A design occurs more than once.
    InvalidDesignSet,
    /// A unit index is not below the number of units.
    UnitIndexOutOfRange { index: u16, min: u16, max: u16 },
    /// A design index is not below the number of designs.
    DesignIndexOutOfRange { index: usize, min: usize, max: usize },
}

/// The designs, as texts.
pub open spec fn design_views(s: Seq<DesignName>) -> Seq<Seq<char>> {
    s.map_values(|d: DesignName| d@)
}

/// No design occurs twice.
pub open spec fn designs_distinct(s: Seq<DesignName>) -> bool {
    forall|i: int, j: int| 0 <= i < j < s.len() ==> (#[trigger] s[i])@ != (#[trigger] s[j])@
}

/// The error of the first entry of the unit map, in key order, whose unit or
/// design index is out of range; the unit index is checked first.
pub open spec fn unit_map_error(s: Seq<(u16, usize)>, units: u16, designs: nat) -> Option<PcbUnitConfigurationError>
    decreases s.len(),
{
    if s.len() == 0 {
        None
    } else if s[0].0 >= units {
        Some(PcbUnitConfigurationError::UnitIndexOutOfRange { index: s[0].0, min: 0, max: (units - 1) as u16 })
    } else if s[0].1 >= designs {
        Some(PcbUnitConfigurationError::DesignIndexOutOfRange { index: s[0].1, min: 0, max: (designs - 1) as usize })
    } else {
        unit_map_error(s.drop_first(), units, designs)
    }
}

/// Why a unit configuration is refused, if it is: repeated designs first, then
/// the unit map's first entry out of range.
pub open spec fn unit_configuration_error(units: u16, designs: Seq<DesignName>, unit_map: Seq<(u16, usize)>) -> Option<PcbUnitConfigurationError> {
    if !designs_distinct(designs) {
        Some(PcbUnitConfigurationError::InvalidDesignSet)
    } else {
        unit_map_error(unit_map, units, designs.len())
    }
}

/// Every entry of the unit map names a unit and a design in range.
pub open spec fn unit_map_in_range(unit_map: Seq<(u16, usize)>, units: u16, designs: nat) -> bool {
    forall|i: int| 0 <= i < unit_map.len() ==> (#[trigger] unit_map[i]).0 < units && unit_map[i].1 < designs
}

/// Whether no design occurs twice.
fn check_designs_distinct(designs: &Vec<DesignName>) -> (r: bool)
    ensures
        r == designs_distinct(designs@),
{
    let mut i: usize = 0;
    while i < designs.len()
        invariant
            i <= designs@.len(),
            forall|a: int, b: int| 0 <= a < b < designs@.len() && a < i ==> (#[trigger] designs@[a])@ != (#[trigger] designs@[b])@,
        decreases designs@.len() - i,
    {
        let mut j: usize = i + 1;
        while j < designs.len()
            invariant
                i < designs@.len(),
                i < j <= designs@.len(),
                forall|a: int, b: int| 0 <= a < b < designs@.len() && a < i ==> (#[trigger] designs@[a])@ != (#[trigger] designs@[b])@,
                forall|b: int| i < b < j ==> designs@[i as int]@ != (#[trigger] designs@[b])@,
            decreases designs@.len() - j,
        {
            if designs[i].equals(&designs[j]) {
                return false;
            }
            j = j + 1;
        }
        i = i + 1;
    }
    true
}

/// Applies a unit configuration to a pcb: the number of units, its designs and
/// which design each unit holds. A configuration with a repeated design, or
/// with a unit or design index out of range, is refused and leaves the pcb as
/// it was; an accepted one marks the pcb as changed.
pub fn apply_pcb_unit_configuration(
    pcb: &mut PcbUnits,
    units: u16,
    designs: Vec<DesignName>,
    unit_map: SortedMap<u16, usize>,
) -> (r: Result<(), PcbUnitConfigurationError>)
    requires
        designs@.len() > 0,
        units == 0 && designs_distinct(designs@) ==> unit_map.seq().len() == 0,
    ensures
        r == match unit_configuration_error(units, designs@, unit_map.seq()) {
            Some(e) => Err(e),
            None => Ok(()),
        },
        (r is Ok) == (designs_distinct(designs@) && unit_map_in_range(unit_map.seq(), units, designs@.len())),
        r is Err ==> *final(pcb) == *old(pcb),
        r is Ok ==> {
            &&& final(pcb).units == units
            &&& final(pcb).unit_map == unit_map
            &&& final(pcb).design_names@ == designs@
            &&& final(pcb).modified
        },
{
    if !check_designs_distinct(&designs) {
        return Err(PcbUnitConfigurationError::InvalidDesignSet);
    }
    let n = designs.len();
    let ghost s = unit_map.seq();
    proof {
        assert(s.skip(0) =~= s);
    }
    let mut i: usize = 0;
    while i < unit_map.len()
        invariant
            s == unit_map.seq(),
            n == designs@.len(),
            designs_distinct(designs@),
            n > 0,
            units == 0 ==> s.len() == 0,
            i <= s.len(),
            unit_map_error(s, units, n as nat) == unit_map_error(s.skip(i as int), units, n as nat),
            forall|j: int| 0 <= j < i ==> (#[trigger] s[j]).0 < units && s[j].1 < n,
        decreases s.len() - i,
    {
        let entry = unit_map.entry(i);
        let unit_index = entry.0;
        let design_index = entry.1;
        proof {
            assert(s.skip(i as int)[0] == s[i as int]);
            assert(s.skip(i as int).drop_first() =~= s.skip(i + 1));
            assert(unit_index == s[i as int].0 && design_index == s[i as int].1);
        }
        if unit_index >= units {
            proof {
                assert(s.skip(i as int).len() > 0);
                assert(unit_map_error(s.skip(i as int), units, n as nat) == Some(
                    PcbUnitConfigurationError::UnitIndexOutOfRange { index: unit_index, min: 0, max: (units - 1) as u16 },
                ));
            }
            return Err(PcbUnitConfigurationError::UnitIndexOutOfRange { index: unit_index, min: 0, max: units - 1 });
        }
        if design_index >= n {
            return Err(PcbUnitConfigurationError::DesignIndexOutOfRange { index: design_index, min: 0, max: n - 1 });
        }
        i = i + 1;
    }
    proof {
        assert(s.skip(i as int).len() == 0);
    }
    pcb.units = units;
    pcb.unit_map = unit_map;
    pcb.design_names = designs;
    pcb.modified = true;
    Ok(())
}

} // verus!
