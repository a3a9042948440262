//! Assembly variants: the placements of a design that a variant assembles.
use vstd::prelude::*;
use crate::eda::assembly_variant::AssemblyVariant;
use crate::eda::placement::EdaPlacement;
use crate::text::str_eq;

pub mod rules;
pub mod variant;

verus! {

/// The placements of an assembly variant.
#[derive(Debug)]
pub struct ProcessingResult {
    pub placements: Vec<EdaPlacement>,
}

impl ProcessingResult {
    pub fn new(placements: Vec<EdaPlacement>) -> (r: ProcessingResult)
        ensures
            r.placements == placements,
    {
        ProcessingResult { placements }
    }
}

/// The error of selecting the placements of a variant.
#[derive(Debug, Clone, Copy, PartialEq, Eq, Structural)]
pub enum ProcessingError {
    NoPlacements,
}

/// The reference designators, as texts.
pub open spec fn ref_des_views(list: Seq<String>) -> Seq<Seq<char>> {
    list.map_values(|s: String| s@)
}

/// Whether a variant assembles a placement: an empty list assembles every
/// placement, otherwise the list names it.
pub open spec fn in_variant(list: Seq<Seq<char>>, placement: EdaPlacement) -> bool {
    list.len() == 0 || list.contains(placement.ref_des@)
}

/// Where every placement is wanted, selecting keeps them all, in order.
proof fn lemma_filter_keeps_all(s: Seq<EdaPlacement>, pred: spec_fn(EdaPlacement) -> bool)
    requires
        forall|i: int| 0 <= i < s.len() ==> pred(#[trigger] s[i]),
    ensures
        s.filter(pred) == s,
    decreases s.len(),
{
    if s.len() == 0 {
        assert(s.filter(pred) =~= s) by {
            reveal(Seq::filter);
        }
    } else {
        let init = s.drop_last();
        assert forall|i: int| 0 <= i < init.len() implies pred(#[trigger] init[i]) by {
            assert(init[i] == s[i]);
        }
        lemma_filter_keeps_all(init, pred);
        assert(s =~= init.push(s.last()));
        init.lemma_filter_push(s.last(), pred);
        assert(pred(s[s.len() - 1]));
    }
}

/// The placements that a variant with the reference-designator list selects, in
/// order (what `AssemblyVariantProcessor::process` gives).
pub open spec fn variant_placements(list: Seq<Seq<char>>, placements: Seq<EdaPlacement>) -> Seq<EdaPlacement> {
    placements.filter(|p: EdaPlacement| in_variant(list, p))
}

/// The placements of a variant: an empty reference-designator list selects
/// every placement, in order; a non-empty list selects exactly the placements it
/// names, so a placement it does not name is left out.
pub proof fn lemma_variant_selection(list: Seq<Seq<char>>, placements: Seq<EdaPlacement>)
    ensures
        list.len() == 0 ==> variant_placements(list, placements) == placements,
        forall|i: int| 0 <= i < variant_placements(list, placements).len()
            ==> list.len() == 0 || list.contains((#[trigger] variant_placements(list, placements)[i]).ref_des@),
        forall|p: EdaPlacement| list.len() > 0 && !list.contains(p.ref_des@)
            ==> !#[trigger] variant_placements(list, placements).contains(p),
        forall|j: int| 0 <= j < placements.len() && list.contains(placements[j].ref_des@)
            ==> variant_placements(list, placements).contains(#[trigger] placements[j]),
{
    let pred = |p: EdaPlacement| in_variant(list, p);
    let f = placements.filter(pred);
    assert(f == variant_placements(list, placements));
    broadcast use vstd::seq_lib::group_filter_ensures;
    if list.len() == 0 {
        lemma_filter_keeps_all(placements, pred);
    }
    assert forall|i: int| 0 <= i < f.len() implies list.len() == 0 || list.contains((#[trigger] f[i]).ref_des@) by {
        placements.lemma_filter_pred(pred, i);
    }
    assert forall|p: EdaPlacement| list.len() > 0 && !list.contains(p.ref_des@) implies !#[trigger] f.contains(p) by {
        if f.contains(p) {
            let k = choose|k: int| 0 <= k < f.len() && f[k] == p;
            placements.lemma_filter_pred(pred, k);
        }
    }
    assert forall|j: int| 0 <= j < placements.len() && list.contains(placements[j].ref_des@) implies f.contains(#[trigger] placements[j]) by {
        placements.lemma_filter_contains(pred, j);
    }
}

/// The values of placements.
pub open spec fn placement_views(s: Seq<EdaPlacement>) -> Seq<<EdaPlacement as View>::V> {
    s.map_values(|p: EdaPlacement| p@)
}

/// Whether the list holds the text.
pub fn list_contains(list: &Vec<String>, s: &String) -> (r: bool)
    ensures
        r == ref_des_views(list@).contains(s@),
{
    let mut k: usize = 0;
    while k < list.len()
        invariant
            k <= list@.len(),
            forall|j: int| 0 <= j < k ==> (#[trigger] list@[j])@ != s@,
        decreases list@.len() - k,
    {
        if str_eq(list[k].as_str(), s.as_str()) {
            assert(ref_des_views(list@)[k as int] == s@);
            return true;
        }
        k = k + 1;
    }
    assert forall|j: int| 0 <= j < ref_des_views(list@).len() implies #[trigger] ref_des_views(list@)[j] != s@ by {
        assert(ref_des_views(list@)[j] == list@[j]@);
    }
    false
}

/// Selects the placements of assembly variants.
pub struct AssemblyVariantProcessor {}

impl AssemblyVariantProcessor {
    /// The placements the variant assembles, in order; an error where there are no
    /// placements.
    pub fn process(placements: &[EdaPlacement], variant: AssemblyVariant) -> (r: Result<ProcessingResult, ProcessingError>)
        ensures
            placements@.len() == 0 <==> r == Err::<ProcessingResult, ProcessingError>(ProcessingError::NoPlacements),
            r matches Ok(result) ==> placement_views(result.placements@) == placement_views(
                placements@.filter(|p: EdaPlacement| in_variant(ref_des_views(variant.ref_des_list@), p)),
            ),
            r matches Ok(result) ==> placement_views(result.placements@) == placement_views(
                variant_placements(ref_des_views(variant.ref_des_list@), placements@),
            ),
    {
        if placements.len() == 0 {
            return Err(ProcessingError::NoPlacements);
        }
        let ghost list = ref_des_views(variant.ref_des_list@);
        let ghost pred = |p: EdaPlacement| in_variant(list, p);
        let mut selected: Vec<EdaPlacement> = Vec::new();
        let mut k: usize = 0;
        while k < placements.len()
            invariant
                k <= placements@.len(),
                list == ref_des_views(variant.ref_des_list@),
                pred == (|p: EdaPlacement| in_variant(list, p)),
                placement_views(selected@) == placement_views(placements@.take(k as int).filter(pred)),
            decreases placements@.len() - k,
        {
            let placement = &placements[k];
            proof {
                assert(placements@.take(k + 1) =~= placements@.take(k as int).push(*placement));
                placements@.take(k as int).lemma_filter_push(*placement, pred);
            }
            let wanted = variant.ref_des_list.len() == 0 || list_contains(&variant.ref_des_list, &placement.ref_des);
            if wanted {
                let ghost before = selected@;
                let copy = placement.copy();
                selected.push(copy);
                proof {
                    assert(placement_views(selected@) =~= placement_views(before).push(placement@));
                    assert(placement_views(placements@.take(k as int).filter(pred).push(*placement))
                        =~= placement_views(placements@.take(k as int).filter(pred)).push(placement@));
                }
            }
            k = k + 1;
        }
        proof {
            assert(placements@.take(k as int) =~= placements@);
        }
        Ok(ProcessingResult::new(selected))
    }
}

} // verus!
