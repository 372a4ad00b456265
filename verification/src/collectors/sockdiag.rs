//! Socket diagnostics collector: its name and whether it takes part in scrapes.
use vstd::prelude::*;

verus! {

/// Socket diagnostics collector.
pub struct SockDiagCollector;

impl SockDiagCollector {
    /// Name of the collector.
    pub fn name(&self) -> (r: &'static str)
        ensures
            r@ == "sock_diag"@,
    {
        "sock_diag"
    }

    /// What the startup probe reports.
    pub fn available(&self) -> (r: bool)
        ensures
            r == true,
    {
        true
    }
}

} // verus!
