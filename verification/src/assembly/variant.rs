//! Variants by reference designator over plain placements.
use vstd::prelude::*;
use crate::placement::Placement;
use crate::assembly::{ref_des_views, list_contains};

verus! {

/// A variant: the reference designators it assembles.
#[derive(Debug, Clone, PartialEq, Eq)]
pub struct Variant {
    pub name: String,
    pub variant_refdes_list: Vec<String>,
}

impl Variant {
    pub fn new(name: String, variant_refdes_list: Vec<String>) -> (r: Variant)
        ensures
            r.name == name,
            r.variant_refdes_list == variant_refdes_list,
    {
        Variant { name, variant_refdes_list }
    }
}

/// The placements of a variant.
#[derive(Debug, PartialEq, Eq)]
pub struct ProcessingResult<'placements> {
    pub placements: Vec<&'placements Placement>,
}

impl<'placements> ProcessingResult<'placements> {
    pub fn new(placements: Vec<&'placements Placement>) -> (r: ProcessingResult<'placements>)
        ensures
            r.placements == placements,
    {
        ProcessingResult { placements }
    }
}

/// Selects the placements of variants.
#[derive(Debug, Default)]
pub struct AssemblyVariantProcessor {}

impl AssemblyVariantProcessor {
    /// The placements the variant names, in order; an error where there are no
    /// placements or the variant names none.
    pub fn process<'placements>(&self, placements: Vec<&'placements Placement>, variant: Variant) -> (r: Result<ProcessingResult<'placements>, ()>)
        ensures
            (placements@.len() == 0 || variant.variant_refdes_list@.len() == 0) <==> r is Err,
            r matches Ok(result) ==> result.placements@ == placements@.filter(
                |p: &Placement| ref_des_views(variant.variant_refdes_list@).contains(p.ref_des@),
            ),
    {
        if placements.len() == 0 || variant.variant_refdes_list.len() == 0 {
            return Err(());
        }
        let ghost pred = |p: &Placement| ref_des_views(variant.variant_refdes_list@).contains(p.ref_des@);
        let mut selected: Vec<&'placements Placement> = Vec::new();
        let mut k: usize = 0;
        while k < placements.len()
            invariant
                k <= placements@.len(),
                pred == (|p: &Placement| ref_des_views(variant.variant_refdes_list@).contains(p.ref_des@)),
                selected@ == placements@.take(k as int).filter(pred),
            decreases placements@.len() - k,
        {
            let placement = placements[k];
            proof {
                assert(placements@.take(k + 1) =~= placements@.take(k as int).push(placement));
                placements@.take(k as int).lemma_filter_push(placement, pred);
            }
            if list_contains(&variant.variant_refdes_list, &placement.ref_des) {
                selected.push(placement);
            }
            k = k + 1;
        }
        proof {
            assert(placements@.take(k as int) =~= placements@);
        }
        Ok(ProcessingResult::new(selected))
    }
}

} // verus!
