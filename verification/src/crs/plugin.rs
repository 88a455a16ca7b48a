//! The CRS as a plugin of the rule engine: `crs_score()` and `crs_match(tag)`.
use vstd::prelude::*;

use crate::crs::evaluator::CrsRuleset;

verus! {

/// Wires a `CrsRuleset` into the rule engine: once installed, rules can call
/// `crs_score()` (the inbound anomaly score of the request) and `crs_match(tag)`
/// (whether a CRS rule with that tag fired).
pub struct CrsPlugin {
    pub ruleset: CrsRuleset,
}

impl CrsPlugin {
    pub fn new(ruleset: CrsRuleset) -> (r: Self)
        ensures
            r.ruleset == ruleset,
    {
        CrsPlugin { ruleset }
    }
}

} // verus!
