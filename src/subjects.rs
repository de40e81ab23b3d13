//! Subject builders. Job lifecycle subjects live under `gbe.jobs`, task
//! subjects under `gbe.tasks`, component lifecycle events under
//! `gbe.events.lifecycle`.
pub mod jobs;
pub mod lifecycle;
pub mod tasks;
