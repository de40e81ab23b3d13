use vstd::prelude::*;

verus! {

/// Errors of the jobs domain.
#[derive(Debug, Clone)]
pub enum JobsDomainError {
    InvalidJobId(String),
    InvalidTaskId(String),
    InvalidOrgId(String),
    InvalidTaskType(String),
    InvalidTransition { from: String, to: String },
    UnknownDependency { task: String, dependency: String },
    CyclicDependency,
    ValidationFailed(String),
}

/// Errors of the transport.
#[derive(Debug, Clone)]
pub enum TransportError {
    Connection(String),
    PayloadTooLarge { size: usize, max: usize },
    Publish(String),
    Subscribe(String),
    Stream(String),
    /// A value could not be encoded or decoded; carries the encoder's message.
    Serialization(String),
    Other(String),
}

/// Errors of the state store.
#[derive(Debug, Clone)]
pub enum StateStoreError {
    Connection(String),
    /// Reserved: `get` reports absence as `None`.
    NotFound(String),
    /// Reserved: `compare_and_swap` reports a mismatch as `false`.
    CasFailed { field: String, expected: Vec<u8> },
    Other(String),
}

/// Errors of the sweeper and its lock.
#[derive(Debug, Clone)]
pub enum SweeperError {
    Transport(TransportError),
    StateStore(StateStoreError),
    Lock(String),
    Other(String),
}

} // verus!
