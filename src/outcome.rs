use vstd::prelude::*;

verus! {

/// An arbitrary JSON value, carried through unread.
#[verifier::external_type_specification]
#[verifier::external_body]
pub struct ExJsonValue(serde_json::Value);

/// Outcome an operative reports after executing a task, published on
/// `gbe.tasks.{task_type}.terminal`.
#[derive(Debug, Clone)]
pub enum TaskOutcome {
    Completed {
        output: Vec<String>,
        result_ref: Option<String>,
        /// Structured output for downstream consumers.
        data: Option<serde_json::Value>,
    },
    Failed { exit_code: i32, error: String },
}

} // verus!
