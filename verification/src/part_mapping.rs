//! Matching parts against the criteria of part mappings.
use vstd::prelude::*;
use crate::pnp::part::Part;
use crate::text::str_eq;

verus! {

/// A part and the criteria that select it.
#[derive(Debug)]
pub struct PartMapping<'part, 'criteria> {
    pub part: &'part Part,
    pub criteria: Vec<&'criteria ExactMatchCriteria>,
}

impl<'part, 'criteria> PartMapping<'part, 'criteria> {
    pub fn new(part: &'part Part, criteria: Vec<&'criteria ExactMatchCriteria>) -> (r: PartMapping<'part, 'criteria>)
        ensures
            r.part == part,
            r.criteria == criteria,
    {
        PartMapping { part, criteria }
    }
}

/// A criterion on parts.
pub trait PartMappingCriteria {
    spec fn matches_spec(&self, part: Part) -> bool;

    fn matches(&self, part: &Part) -> (r: bool)
        ensures
            r == self.matches_spec(*part),
    ;
}

/// Selects the part with exactly this manufacturer and part number.
#[derive(Debug, Clone, PartialEq, Eq)]
pub struct ExactMatchCriteria {
    manufacturer: String,
    mpn: String,
}

impl ExactMatchCriteria {
    pub fn new(manufacturer: String, mpn: String) -> (r: ExactMatchCriteria)
        ensures
            r.manufacturer() == manufacturer@,
            r.mpn() == mpn@,
    {
        ExactMatchCriteria { manufacturer, mpn }
    }

    pub closed spec fn manufacturer(&self) -> Seq<char> {
        self.manufacturer@
    }

    pub closed spec fn mpn(&self) -> Seq<char> {
        self.mpn@
    }
}

impl PartMappingCriteria for ExactMatchCriteria {
    open spec fn matches_spec(&self, part: Part) -> bool {
        self.manufacturer() == part.manufacturer@ && self.mpn() == part.mpn@
    }

    fn matches(&self, part: &Part) -> (r: bool) {
        str_eq(self.manufacturer.as_str(), part.manufacturer.as_str()) && str_eq(self.mpn.as_str(), part.mpn.as_str())
    }
}

/// The index `j` once for each criterion that the part meets.
pub open spec fn criterion_hits(part: Part, criteria: Seq<&ExactMatchCriteria>, j: int) -> Seq<int>
    decreases criteria.len(),
{
    if criteria.len() == 0 {
        Seq::empty()
    } else {
        criterion_hits(part, criteria.drop_last(), j) + if criteria.last().matches_spec(part) {
            seq![j]
        } else {
            Seq::empty()
        }
    }
}

/// The mappings a part meets, once per criterion met, in mapping order.
pub open spec fn part_hits(part: Part, mappings: Seq<&PartMapping>) -> Seq<int>
    decreases mappings.len(),
{
    if mappings.len() == 0 {
        Seq::empty()
    } else {
        part_hits(part, mappings.drop_last()) + criterion_hits(part, mappings.last().criteria@, mappings.len() - 1)
    }
}

/// The mappings the parts meet, part by part.
pub open spec fn matched_mappings(parts: Seq<&Part>, mappings: Seq<&PartMapping>) -> Seq<int>
    decreases parts.len(),
{
    if parts.len() == 0 {
        Seq::empty()
    } else {
        matched_mappings(parts.drop_last(), mappings) + part_hits(*parts.last(), mappings)
    }
}

/// Matches parts against part mappings.
pub struct PartMatcher {}

impl PartMatcher {
    /// The mappings the parts meet: for each part in turn, each mapping once for
    /// every criterion of it that the part meets; `None` when there are none.
    pub fn process<'parts, 'mapping>(
        parts: Vec<&'parts Part>,
        part_mappings: Vec<&'mapping PartMapping<'mapping, 'mapping>>,
    ) -> (r: Option<Vec<&'mapping PartMapping<'mapping, 'mapping>>>)
        ensures
            match r {
                Some(v) => {
                    &&& v@.len() > 0
                    &&& v@.len() == matched_mappings(parts@, part_mappings@).len()
                    &&& forall|i: int| 0 <= i < v@.len() ==> #[trigger] v@[i] == part_mappings@[matched_mappings(parts@, part_mappings@)[i]]
                },
                None => matched_mappings(parts@, part_mappings@).len() == 0,
            },
    {
        let ghost ms = part_mappings@;
        let mut results: Vec<&'mapping PartMapping<'mapping, 'mapping>> = Vec::new();
        let mut p: usize = 0;
        while p < parts.len()
            invariant
                p <= parts@.len(),
                ms == part_mappings@,
                results@.len() == matched_mappings(parts@.take(p as int), ms).len(),
                forall|i: int| 0 <= i < results@.len() ==> #[trigger] results@[i] == ms[matched_mappings(parts@.take(p as int), ms)[i]],
            decreases parts@.len() - p,
        {
            let part = parts[p];
            let ghost base = matched_mappings(parts@.take(p as int), ms);
            let mut j: usize = 0;
            while j < part_mappings.len()
                invariant
                    j <= ms.len(),
                    ms == part_mappings@,
                    results@.len() == base.len() + part_hits(*part, ms.take(j as int)).len(),
                    forall|i: int| 0 <= i < results@.len() ==> #[trigger] results@[i] == ms[(base + part_hits(*part, ms.take(j as int)))[i]],
                decreases ms.len() - j,
            {
                let mapping = part_mappings[j];
                let ghost mid = base + part_hits(*part, ms.take(j as int));
                let ghost crit = mapping.criteria@;
                let mut c: usize = 0;
                while c < mapping.criteria.len()
                    invariant
                        c <= crit.len(),
                        crit == mapping.criteria@,
                        j < ms.len(),
                        mapping == ms[j as int],
                        results@.len() == mid.len() + criterion_hits(*part, crit.take(c as int), j as int).len(),
                        forall|i: int| 0 <= i < results@.len() ==> #[trigger] results@[i] == ms[(mid + criterion_hits(*part, crit.take(c as int), j as int))[i]],
                    decreases crit.len() - c,
                {
                    proof {
                        assert(crit.take(c + 1).drop_last() =~= crit.take(c as int));
                        assert(crit.take(c + 1).last() == crit[c as int]);
                    }
                    if mapping.criteria[c].matches(part) {
                        results.push(mapping);
                        proof {
                            let hits = criterion_hits(*part, crit.take(c + 1), j as int);
                            assert(hits == criterion_hits(*part, crit.take(c as int), j as int) + seq![j as int]);
                            assert((mid + hits) =~= (mid + criterion_hits(*part, crit.take(c as int), j as int)).push(j as int));
                        }
                    } else {
                        proof {
                            assert(criterion_hits(*part, crit.take(c + 1), j as int) =~= criterion_hits(*part, crit.take(c as int), j as int));
                        }
                    }
                    c = c + 1;
                }
                proof {
                    assert(crit.take(c as int) =~= crit);
                    assert(ms.take(j + 1).drop_last() =~= ms.take(j as int));
                    assert(ms.take(j + 1).last() == ms[j as int]);
                    assert(part_hits(*part, ms.take(j + 1)) == part_hits(*part, ms.take(j as int)) + criterion_hits(*part, crit, j as int));
                    assert(base + part_hits(*part, ms.take(j + 1)) =~= mid + criterion_hits(*part, crit, j as int));
                }
                j = j + 1;
            }
            proof {
                assert(ms.take(j as int) =~= ms);
                assert(parts@.take(p + 1).drop_last() =~= parts@.take(p as int));
                assert(parts@.take(p + 1).last() == part);
            }
            p = p + 1;
        }
        proof {
            assert(parts@.take(p as int) =~= parts@);
        }
        if results.len() == 0 {
            None
        } else {
            Some(results)
        }
    }
}

} // verus!
