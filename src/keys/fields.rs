//! Field names of the state records, one module per record kind.
pub mod job;
pub mod task;
