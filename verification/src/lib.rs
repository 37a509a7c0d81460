//! Conflict analysis for batches of state-accessing transactions.
//!
//! A transaction is a short program of micro-operations over a flat key/value
//! store. Running it yields the set of keys it read and the set it wrote;
//! from those sets of a whole batch the crate builds the graph of
//! transactions that may not run side by side.

pub mod codec;
pub mod db;
pub mod flat;
pub mod interp;
pub mod mis;
pub mod types;
pub mod workload;
