//! A single-host telemetry agent's core: per-interval deltas of cumulative
//! kernel counters, their normalization into percentages, and the encoding of
//! a scrape's metrics as line protocol.
use vstd::prelude::*;

pub mod collectors;
pub mod config;
pub mod cpu;
pub mod disk;
pub mod entity_map;
pub mod exporter;
pub mod gpu;
pub mod line_protocol;
pub mod memory;
pub mod network;
pub mod temperature;
pub mod text;

verus! {

} // verus!
