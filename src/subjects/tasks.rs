use vstd::prelude::*;

use crate::text::wrap;

verus! {

pub fn queue(task_type: &str) -> (r: String)
    ensures
        r@ == "gbe.tasks."@ + task_type@ + ".queue"@,
{
    wrap("gbe.tasks.", task_type, ".queue")
}

pub fn progress(task_type: &str) -> (r: String)
    ensures
        r@ == "gbe.tasks."@ + task_type@ + ".progress"@,
{
    wrap("gbe.tasks.", task_type, ".progress")
}

pub fn terminal(task_type: &str) -> (r: String)
    ensures
        r@ == "gbe.tasks."@ + task_type@ + ".terminal"@,
{
    wrap("gbe.tasks.", task_type, ".terminal")
}

} // verus!
