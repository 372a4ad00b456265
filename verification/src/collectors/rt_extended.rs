//! Extended link statistics collector: its name and whether it takes part in scrapes.
use vstd::prelude::*;

verus! {

/// Extended link statistics collector.
pub struct RtExtendedCollector;

impl RtExtendedCollector {
    /// Name of the collector.
    pub fn name(&self) -> (r: &'static str)
        ensures
            r@ == "rtnetlink_extended"@,
    {
        "rtnetlink_extended"
    }

    /// What the startup probe reports.
    pub fn available(&self) -> (r: bool)
        ensures
            r == true,
    {
        true
    }
}

} // verus!
