//! Job and task events, published on `gbe.jobs.{job_type}.*` and
//! `gbe.tasks.{task_type}.*` inside a domain payload.
use vstd::prelude::*;

use crate::definition::TaskParams;
use crate::ids::{JobId, OrgId, TaskId, TaskType};

verus! {

/// A job was created with all of its tasks.
#[derive(Debug, Clone)]
pub struct JobCreated {
    pub job_id: JobId,
    pub org_id: OrgId,
    pub job_type: String,
    pub task_count: u32,
    pub task_ids: Vec<TaskId>,
    pub created_at: u64,
    pub definition_ref: Option<String>,
}

/// Every task of the job completed.
#[derive(Debug, Clone)]
pub struct JobCompleted {
    pub job_id: JobId,
    pub org_id: OrgId,
    pub job_type: String,
    pub completed_at: u64,
    pub result_ref: Option<String>,
}

/// The job failed terminally (a task exhausted its retries).
#[derive(Debug, Clone)]
pub struct JobFailed {
    pub job_id: JobId,
    pub org_id: OrgId,
    pub job_type: String,
    pub failed_at: u64,
    pub failed_task_id: TaskId,
    pub error: String,
}

/// The job was cancelled externally.
#[derive(Debug, Clone)]
pub struct JobCancelled {
    pub job_id: JobId,
    pub org_id: OrgId,
    pub job_type: String,
    pub cancelled_at: u64,
    pub reason: String,
}

/// A task is ready for a worker to claim.
#[derive(Debug, Clone)]
pub struct TaskQueued {
    pub task_id: TaskId,
    pub job_id: JobId,
    pub org_id: OrgId,
    pub task_type: TaskType,
    pub params: TaskParams,
    pub retry_count: u32,
}

/// A worker's step progress.
#[derive(Debug, Clone)]
pub struct TaskProgress {
    pub task_id: TaskId,
    pub job_id: JobId,
    pub current_step: u32,
    pub step_count: Option<u32>,
    pub message: Option<String>,
}

/// A task completed.
#[derive(Debug, Clone)]
pub struct TaskCompleted {
    pub task_id: TaskId,
    pub job_id: JobId,
    pub task_type: TaskType,
    pub completed_at: u64,
    pub result_ref: Option<String>,
}

/// A task failed; retries may remain.
#[derive(Debug, Clone)]
pub struct TaskFailed {
    pub task_id: TaskId,
    pub job_id: JobId,
    pub task_type: TaskType,
    pub failed_at: u64,
    pub error: String,
    pub retry_count: u32,
    pub max_retries: u32,
}

} // verus!
