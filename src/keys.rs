//! State-store key builders (dot-delimited; a colon-delimited backend
//! converts them).
use vstd::prelude::*;

use crate::text::wrap;

pub mod fields;

verus! {

/// `gbe.state.jobs.{job_type}.{job_id}`
pub fn job_key(job_type: &str, job_id: &str) -> (r: String)
    ensures
        r@ == "gbe.state.jobs."@ + job_type@ + "."@ + job_id@,
{
    let mut s = wrap("gbe.state.jobs.", job_type, ".");
    vstd::string::StringExecFns::append(&mut s, job_id);
    s
}

/// `gbe.state.tasks.{task_type}.{task_id}`
pub fn task_key(task_type: &str, task_id: &str) -> (r: String)
    ensures
        r@ == "gbe.state.tasks."@ + task_type@ + "."@ + task_id@,
{
    let mut s = wrap("gbe.state.tasks.", task_type, ".");
    vstd::string::StringExecFns::append(&mut s, task_id);
    s
}

/// `gbe.idx.jobs.{job_id}.tasks.{task_name}`
pub fn job_task_index_key(job_id: &str, task_name: &str) -> (r: String)
    ensures
        r@ == "gbe.idx.jobs."@ + job_id@ + ".tasks."@ + task_name@,
{
    let mut s = wrap("gbe.idx.jobs.", job_id, ".tasks.");
    vstd::string::StringExecFns::append(&mut s, task_name);
    s
}

/// `gbe.idx.jobs.{job_id}.tasks.`: the prefix under which a job's task
/// index keys lie.
pub fn job_tasks_prefix(job_id: &str) -> (r: String)
    ensures
        r@ == "gbe.idx.jobs."@ + job_id@ + ".tasks."@,
{
    wrap("gbe.idx.jobs.", job_id, ".tasks.")
}

/// The prefix of a job's task index keys is a prefix of each of them.
pub proof fn lemma_index_key_under_prefix(job_id: Seq<char>, task_name: Seq<char>)
    ensures
        ("gbe.idx.jobs."@ + job_id + ".tasks."@ + task_name).subrange(
            0,
            ("gbe.idx.jobs."@ + job_id + ".tasks."@).len() as int,
        ) == "gbe.idx.jobs."@ + job_id + ".tasks."@,
{
    let p = "gbe.idx.jobs."@ + job_id + ".tasks."@;
    assert((p + task_name).subrange(0, p.len() as int) =~= p);
}

} // verus!
