//! Parsing placement sorting items: `<MODE>:<SORT_ORDER>` in screaming snake case,
//! e.g. `FEEDER_REFERENCE:ASC`.
use vstd::prelude::*;
use crate::cli::args::{PlacementSortingModeArg, SortOrderArg};
use crate::planning::placement::{PlacementSortingItem, PlacementSortingMode, PlacementSortingError};
use crate::planning::SortOrder;
use crate::text::{split_str, split_spec, str_eq, views_of};

verus! {

/// The sorting mode a name denotes.
pub open spec fn sorting_mode_named(name: Seq<char>) -> Option<PlacementSortingModeArg> {
    if name == "FEEDER_REFERENCE"@ {
        Some(PlacementSortingModeArg::FeederReference)
    } else if name == "PCB_UNIT"@ {
        Some(PlacementSortingModeArg::PcbUnit)
    } else {
        None
    }
}

/// The sort order a name denotes.
pub open spec fn sort_order_named(name: Seq<char>) -> Option<SortOrderArg> {
    if name == "ASC"@ {
        Some(SortOrderArg::Asc)
    } else if name == "DESC"@ {
        Some(SortOrderArg::Desc)
    } else {
        None
    }
}

/// The item a text denotes: two pieces separated by `:`, naming a mode and an order.
pub open spec fn sorting_item_of(value: Seq<char>) -> Option<(PlacementSortingModeArg, SortOrderArg)> {
    let pieces = split_spec(value, ":"@);
    if pieces.len() == 2 {
        match (sorting_mode_named(pieces[0]), sort_order_named(pieces[1])) {
            (Some(mode), Some(order)) => Some((mode, order)),
            _ => None,
        }
    } else {
        None
    }
}

/// Parses placement sorting items.
#[derive(Debug, Clone, Copy, Default)]
pub struct PlacementSortingItemParser {}

impl PlacementSortingItemParser {
    /// Parses `<MODE>:<SORT_ORDER>`; an error holding the text otherwise.
    pub fn parse_ref(&self, value: &str) -> (r: Result<PlacementSortingItem, PlacementSortingError>)
        ensures
            match sorting_item_of(value@) {
                Some((mode, order)) => r == Ok::<PlacementSortingItem, PlacementSortingError>(
                    PlacementSortingItem {
                        mode: match mode {
                            PlacementSortingModeArg::FeederReference => PlacementSortingMode::FeederReference,
                            PlacementSortingModeArg::PcbUnit => PlacementSortingMode::PcbUnit,
                        },
                        sort_order: match order {
                            SortOrderArg::Asc => SortOrder::Asc,
                            SortOrderArg::Desc => SortOrder::Desc,
                        },
                    },
                ),
                None => r matches Err(PlacementSortingError::Invalid(text)) && text@ == value@,
            },
    {
        proof {
            reveal_strlit(":");
        }
        let pieces = split_str(value, ":");
        if pieces.len() != 2 {
            return Err(PlacementSortingError::Invalid(value.to_owned()));
        }
        proof {
            assert(views_of(pieces@)[0] == pieces@[0]@ && views_of(pieces@)[1] == pieces@[1]@);
        }
        let mode = if str_eq(pieces[0].as_str(), "FEEDER_REFERENCE") {
            PlacementSortingModeArg::FeederReference
        } else if str_eq(pieces[0].as_str(), "PCB_UNIT") {
            PlacementSortingModeArg::PcbUnit
        } else {
            return Err(PlacementSortingError::Invalid(value.to_owned()));
        };
        let order = if str_eq(pieces[1].as_str(), "ASC") {
            SortOrderArg::Asc
        } else if str_eq(pieces[1].as_str(), "DESC") {
            SortOrderArg::Desc
        } else {
            return Err(PlacementSortingError::Invalid(value.to_owned()));
        };
        Ok(PlacementSortingItem { mode: mode.to_placement_sorting_mode(), sort_order: order.to_sort_order() })
    }
}

} // verus!
