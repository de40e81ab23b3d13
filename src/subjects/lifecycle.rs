use vstd::prelude::*;

use crate::text::wrap;

verus! {

pub fn started(component: &str) -> (r: String)
    ensures
        r@ == "gbe.events.lifecycle."@ + component@ + ".started"@,
{
    wrap("gbe.events.lifecycle.", component, ".started")
}

pub fn stopped(component: &str) -> (r: String)
    ensures
        r@ == "gbe.events.lifecycle."@ + component@ + ".stopped"@,
{
    wrap("gbe.events.lifecycle.", component, ".stopped")
}

pub fn heartbeat(component: &str) -> (r: String)
    ensures
        r@ == "gbe.events.lifecycle."@ + component@ + ".heartbeat"@,
{
    wrap("gbe.events.lifecycle.", component, ".heartbeat")
}

pub fn degraded(component: &str) -> (r: String)
    ensures
        r@ == "gbe.events.lifecycle."@ + component@ + ".degraded"@,
{
    wrap("gbe.events.lifecycle.", component, ".degraded")
}

/// Wildcard for every lifecycle event of one component.
pub fn all(component: &str) -> (r: String)
    ensures
        r@ == "gbe.events.lifecycle."@ + component@ + ".*"@,
{
    wrap("gbe.events.lifecycle.", component, ".*")
}

/// Wildcard for every lifecycle event of every component.
pub fn all_components() -> (r: String)
    ensures
        r@ == "gbe.events.lifecycle.*.*"@,
{
    "gbe.events.lifecycle.*.*".to_string()
}

} // verus!
