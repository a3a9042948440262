//! The assembly rules of an assembly rules file.
use vstd::prelude::*;
use crate::loaders::csv::AssemblyRuleRecord;
use crate::assembly::rules::AssemblyRule;

verus! {

/// The assembly rules of the records, in order.
pub fn load(records: &Vec<AssemblyRuleRecord>) -> (r: Vec<AssemblyRule>)
    ensures
        r@.len() == records@.len(),
        forall|i: int| 0 <= i < r@.len() ==> (#[trigger] r@[i]).ref_des@ == records@[i].ref_des@
            && r@[i].manufacturer@ == records@[i].manufacturer@ && r@[i].mpn@ == records@[i].mpn@,
{
    let mut rules: Vec<AssemblyRule> = Vec::new();
    let mut k: usize = 0;
    while k < records.len()
        invariant
            k <= records@.len(),
            rules@.len() == k,
            forall|i: int| 0 <= i < k ==> (#[trigger] rules@[i]).ref_des@ == records@[i].ref_des@
                && rules@[i].manufacturer@ == records@[i].manufacturer@ && rules@[i].mpn@ == records@[i].mpn@,
        decreases records@.len() - k,
    {
        match records[k].build_assembly_rule() {
            Ok(rule) => rules.push(rule),
            Err(_) => {},
        }
        k = k + 1;
    }
    rules
}

} // verus!
