//! Fleet latency probing: the host list, the probing policy for one host,
//! the fan-out over a batch, nearest-rank latency statistics over the
//! results, and the best-effort location of the probing machine.
//!
//! The library decides and computes; it performs no I/O. Callers resolve
//! names, send echo requests and read files, and report back what happened.

pub mod geo;
pub mod hosts;
pub mod order;
pub mod probe;
pub mod runner;
pub mod scheduler;
pub mod stats;
