//! Connection tracking collector: its name and whether it takes part in scrapes.
use vstd::prelude::*;

verus! {

/// Connection tracking collector.
pub struct ConntrackCollector;

impl ConntrackCollector {
    /// Name of the collector.
    pub fn name(&self) -> (r: &'static str)
        ensures
            r@ == "conntrack"@,
    {
        "conntrack"
    }

    /// What the startup probe reports.
    pub fn available(&self) -> (r: bool)
        ensures
            r == true,
    {
        true
    }
}

} // verus!
