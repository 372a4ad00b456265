//! Liveness and readiness of the exporter.
use vstd::prelude::*;

verus! {

/// Liveness probe: the exporter is healthy as long as it answers.
#[derive(Clone, Copy, Debug)]
pub struct HealthService;

impl HealthService {
    /// Whether the exporter is alive.
    pub fn is_healthy(&self) -> (r: bool)
        ensures
            r == true,
    {
        true
    }
}

/// Readiness probe: not ready until told so.
#[derive(Clone, Copy, Debug)]
pub struct ReadinessService {
    ready: bool,
}

impl ReadinessService {
    /// Whether the exporter has been declared ready.
    pub closed spec fn ready(&self) -> bool {
        self.ready
    }

    /// A service that is not ready.
    pub fn new() -> (r: Self)
        ensures
            !r.ready(),
    {
        ReadinessService { ready: false }
    }

    /// Declares the exporter ready.
    pub fn set_ready(&mut self)
        ensures
            final(self).ready(),
    {
        self.ready = true;
    }

    /// Whether the exporter is ready to serve.
    pub fn is_ready(&self) -> (r: bool)
        ensures
            r == self.ready(),
    {
        self.ready
    }
}

} // verus!
