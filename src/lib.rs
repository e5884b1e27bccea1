//! Long-term memory for a distributed learning network.
//!
//! Telemetry of learning units is distilled into scored capsules
//! (`consolidator`, over `telemetry`), indexed for similarity search and
//! evicted when stale (`vector_store`), and registered in a hash-chained
//! ledger that also keeps incentive balances and resource leases
//! (`ledger`). `global_memory` indexes capsules network-wide.
//!
//! Real quantities are fixed-point millionths (`numeric::SCALE` is 1.0);
//! times are supplied by the caller.
use vstd::prelude::*;

pub mod numeric;
pub mod text;
pub mod keyed;
mod entropy;
pub mod vector_math;
pub mod features;
pub mod capsule;
pub mod telemetry;
pub mod consolidator;
pub mod vector_store;
pub mod ledger;
pub mod global_memory;
pub mod pipeline;

verus! {

} // verus!
