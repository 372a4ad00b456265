//! Drop monitor collector: its name and whether it takes part in scrapes.
use vstd::prelude::*;

verus! {

/// Drop monitor collector.
pub struct DropMonitorCollector;

impl DropMonitorCollector {
    /// Name of the collector.
    pub fn name(&self) -> (r: &'static str)
        ensures
            r@ == "drop_monitor"@,
    {
        "drop_monitor"
    }

    /// What the startup probe reports.
    pub fn available(&self) -> (r: bool)
        ensures
            r == false,
    {
        false
    }
}

} // verus!
