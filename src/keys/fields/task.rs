use vstd::prelude::*;

verus! {

pub const STATE: &'static str = "state";
pub const TASK_TYPE: &'static str = "task_type";
pub const TASK_ID: &'static str = "task_id";
pub const JOB_ID: &'static str = "job_id";
pub const ORG_ID: &'static str = "org_id";
pub const TASK_NAME: &'static str = "task_name";
pub const WORKER: &'static str = "worker";
pub const CURRENT_STEP: &'static str = "current_step";
pub const STEP_COUNT: &'static str = "step_count";
pub const CREATED_AT: &'static str = "created_at";
pub const UPDATED_AT: &'static str = "updated_at";
pub const TIMEOUT_AT: &'static str = "timeout_at";
pub const ERROR: &'static str = "error";
pub const PARAMS_REF: &'static str = "params_ref";
pub const RESULT_REF: &'static str = "result_ref";
pub const RETRY_COUNT: &'static str = "retry_count";
pub const MAX_RETRIES: &'static str = "max_retries";
pub const DEPENDS_ON: &'static str = "depends_on";

} // verus!
