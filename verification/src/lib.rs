//! A model of a rate-limited network service under two execution
//! strategies: a bounded pool of blocking workers and unbounded
//! per-request concurrent tasks. The library holds the verified core:
//! rate-limiter configuration, workload parsing, the execution state
//! machines, and statistics aggregation.

pub mod config;
pub mod executor;
pub mod sorting;
pub mod stats;
pub mod rate;
pub mod record;
