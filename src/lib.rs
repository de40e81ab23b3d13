//! Core of a job-execution platform: typed identifiers, the job DAG, the
//! job and task state machines, subject and key builders, the transport
//! envelope and domain payload, the bookkeeping of an in-memory
//! ordered-stream server with consumer groups, the naming and driver
//! decisions of the broker-backed transport, and the state-store scan filter.
pub mod broker;
pub mod clock;
pub mod definition;
pub mod emitter;
pub mod envelope;
pub mod error;
pub mod ids;
pub mod keys;
pub mod lifecycle;
pub mod options;
pub mod outcome;
pub mod payload;
pub mod payloads;
pub mod scan;
pub mod state;
pub mod store;
pub mod subjects;
pub mod text;
