//! Connection tracking expectations collector: its name and whether it takes part in scrapes.
use vstd::prelude::*;

verus! {

/// Connection tracking expectations collector.
pub struct ConntrackExpectCollector;

impl ConntrackExpectCollector {
    /// Name of the collector.
    pub fn name(&self) -> (r: &'static str)
        ensures
            r@ == "conntrack_expect"@,
    {
        "conntrack_expect"
    }

    /// What the startup probe reports.
    pub fn available(&self) -> (r: bool)
        ensures
            r == true,
    {
        true
    }
}

} // verus!
