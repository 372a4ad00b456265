//! Traffic control collector: its name and whether it takes part in scrapes.
use vstd::prelude::*;

verus! {

/// Traffic control collector.
pub struct TcCollector;

impl TcCollector {
    /// Name of the collector.
    pub fn name(&self) -> (r: &'static str)
        ensures
            r@ == "traffic_control"@,
    {
        "traffic_control"
    }

    /// What the startup probe reports.
    pub fn available(&self) -> (r: bool)
        ensures
            r == true,
    {
        true
    }
}

} // verus!
