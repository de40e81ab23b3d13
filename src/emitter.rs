use vstd::prelude::*;
use vstd::string::*;

use crate::clock::unix_millis;
use crate::text::{append_decimal, decimal, wrap};

verus! {

/// `{component}-{instance_id}-{event}-{ts}`
pub open spec fn dedup_text(component: Seq<char>, instance_id: Seq<char>, event: Seq<char>, ts: nat) -> Seq<char> {
    component + "-"@ + instance_id + "-"@ + event + "-"@ + decimal(ts)
}

/// Dedup id for an event at time `ts`.
pub fn dedup_id_at(component: &str, instance_id: &str, event: &str, ts: u64) -> (r: String)
    ensures
        r@ == dedup_text(component@, instance_id@, event@, ts as nat),
{
    let mut s = wrap(component, "-", instance_id);
    s.append("-");
    s.append(event);
    s.append("-");
    append_decimal(&mut s, ts);
    s
}

/// Dedup id for an event now: `{component}-{instance_id}-{event}-{unix_ms}`.
pub fn dedup_id(component: &str, instance_id: &str, event: &str) -> (r: String)
    ensures
        exists|ts: nat| r@ == dedup_text(component@, instance_id@, event@, ts),
{
    let ts = unix_millis();
    dedup_id_at(component, instance_id, event, ts)
}

} // verus!
