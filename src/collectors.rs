//! Collectors whose figures come straight from the system, with no state of
//! their own.
use vstd::prelude::*;

verus! {

/// The collector of uptime and load averages.
#[derive(Debug, Default)]
pub struct SystemCollector;

impl SystemCollector {
    /// The system collector; it keeps no state.
    pub fn new() -> Self {
        SystemCollector
    }
}

/// The collector of graphics-card sensors and clocks.
#[derive(Debug, Default)]
pub struct GpuCollector;

} // verus!
