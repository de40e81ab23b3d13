use vstd::prelude::*;

use crate::text::wrap;

verus! {

pub fn created(job_type: &str) -> (r: String)
    ensures
        r@ == "gbe.jobs."@ + job_type@ + ".created"@,
{
    wrap("gbe.jobs.", job_type, ".created")
}

pub fn completed(job_type: &str) -> (r: String)
    ensures
        r@ == "gbe.jobs."@ + job_type@ + ".completed"@,
{
    wrap("gbe.jobs.", job_type, ".completed")
}

pub fn failed(job_type: &str) -> (r: String)
    ensures
        r@ == "gbe.jobs."@ + job_type@ + ".failed"@,
{
    wrap("gbe.jobs.", job_type, ".failed")
}

pub fn cancelled(job_type: &str) -> (r: String)
    ensures
        r@ == "gbe.jobs."@ + job_type@ + ".cancelled"@,
{
    wrap("gbe.jobs.", job_type, ".cancelled")
}

/// Wildcard for every event of one job type.
pub fn all(job_type: &str) -> (r: String)
    ensures
        r@ == "gbe.jobs."@ + job_type@ + ".*"@,
{
    wrap("gbe.jobs.", job_type, ".*")
}

} // verus!
