use vstd::prelude::*;

verus! {

pub const STATE: &'static str = "state";
pub const JOB_TYPE: &'static str = "job_type";
pub const JOB_ID: &'static str = "job_id";
pub const ORG_ID: &'static str = "org_id";
pub const TASK_COUNT: &'static str = "task_count";
pub const COMPLETED_COUNT: &'static str = "completed_count";
pub const FAILED_COUNT: &'static str = "failed_count";
pub const CREATED_AT: &'static str = "created_at";
pub const UPDATED_AT: &'static str = "updated_at";
pub const ERROR: &'static str = "error";
pub const DEFINITION_REF: &'static str = "definition_ref";

} // verus!
