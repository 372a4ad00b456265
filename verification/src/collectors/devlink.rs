//! Devlink collector: its name and whether it takes part in scrapes.
use vstd::prelude::*;

verus! {

/// Devlink collector.
pub struct DevlinkCollector;

impl DevlinkCollector {
    /// Name of the collector.
    pub fn name(&self) -> (r: &'static str)
        ensures
            r@ == "devlink"@,
    {
        "devlink"
    }

    /// What the startup probe reports.
    pub fn available(&self) -> (r: bool)
        ensures
            r == false,
    {
        false
    }
}

} // verus!
