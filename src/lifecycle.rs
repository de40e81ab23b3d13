//! Component lifecycle events, published on
//! `gbe.events.lifecycle.{component}.*` inside a domain payload.
use vstd::prelude::*;

verus! {

/// A component has connected to the transport and is ready.
#[derive(Debug, Clone)]
pub struct ComponentStarted {
    pub component: String,
    pub instance_id: String,
    pub started_at: u64,
    pub version: Option<String>,
}

/// A component is shutting down gracefully.
#[derive(Debug, Clone)]
pub struct ComponentStopped {
    pub component: String,
    pub instance_id: String,
    pub stopped_at: u64,
    pub reason: String,
}

/// Periodic liveness signal.
#[derive(Debug, Clone)]
pub struct Heartbeat {
    pub component: String,
    pub instance_id: String,
    pub timestamp: u64,
    pub uptime_secs: u64,
}

/// A component is alive but unhealthy.
#[derive(Debug, Clone)]
pub struct ComponentDegraded {
    pub component: String,
    pub instance_id: String,
    pub degraded_at: u64,
    pub reason: String,
}

} // verus!
