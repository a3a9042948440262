//! Pcbs: single boards and panels, and their sides.
use vstd::prelude::*;
use crate::text::str_eq;

verus! {

/// A side of a pcb.
#[derive(Debug, Clone, Copy, PartialEq, Eq, PartialOrd, Ord, Hash, Structural)]
pub enum PcbSide {
    Top,
    Bottom,
}

/// A pcb of a project.
#[derive(Debug, Clone, PartialEq, Eq, PartialOrd, Ord, Hash)]
pub struct Pcb {
    pub kind: PcbKind,
    pub name: String,
}

/// The kind of a pcb: a single board or a panel of units.
#[derive(Debug, Clone, Copy, PartialEq, Eq, PartialOrd, Ord, Hash, Structural)]
pub enum PcbKind {
    Single,
    Panel,
}

/// The lower-case form of a text, as `str::to_lowercase` computes it.
pub uninterp spec fn lowercase_of(s: Seq<char>) -> Seq<char>;

/// `str::to_lowercase`.
///
/// Trusted: claims only that the result is the lower-case form of the argument,
/// a function of the argument alone; Unicode's case mapping is not written out.
#[verifier::external_body]
pub(crate) fn to_lowercase(s: &str) -> (r: String)
    ensures
        r@ == lowercase_of(s@),
{
    s.to_lowercase()
}

/// The pcb kind a lower-case name denotes.
pub open spec fn pcb_kind_named(name: Seq<char>) -> Option<PcbKind> {
    if name == "single"@ {
        Some(PcbKind::Single)
    } else if name == "panel"@ {
        Some(PcbKind::Panel)
    } else {
        None
    }
}

impl PcbKind {
    /// The pcb kind of an already lower-cased name: `single` or `panel`.
    pub fn from_lowercase_name(name: &str) -> (r: Option<PcbKind>)
        ensures
            r == pcb_kind_named(name@),
    {
        if str_eq(name, "single") {
            Some(PcbKind::Single)
        } else if str_eq(name, "panel") {
            Some(PcbKind::Panel)
        } else {
            None
        }
    }

    /// Parses a pcb kind, ignoring case (`TryFrom<&String>`).
    pub fn try_from(value: &String) -> (r: Result<PcbKind, ()>)
        ensures
            match pcb_kind_named(lowercase_of(value@)) {
                Some(k) => r == Ok::<PcbKind, ()>(k),
                None => r is Err,
            },
    {
        let lower = to_lowercase(value.as_str());
        match PcbKind::from_lowercase_name(lower.as_str()) {
            Some(k) => Ok(k),
            None => Err(()),
        }
    }
}

} // verus!
