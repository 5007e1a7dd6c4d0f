//! Scheduling and execution engine for ledger automation tasks.
//!
//! The engine keeps a time-indexed cache of task records, a registry of
//! per-instance execution locks, a monotonic clock-tick filter, and the
//! decision logic of the executor. Network access, threads and decoding of
//! ledger bytes are left to the caller, which feeds their results back in.
//!
//! Beside the engine stand the decisions of the installer of the local
//! network's runtime dependencies and the error type of the command line.

pub mod record;
pub mod cache;
pub mod lock;
pub mod monitor;
pub mod executor;
pub mod scheduler;
pub mod laws;
pub mod deps;
pub mod errors;
