//! Naming on the external stream server, whose keys are colon-delimited.
use vstd::prelude::*;
use vstd::string::*;

use crate::options::StartPosition;

use crate::text::{append_decimal, decimal, replace_char, replace_dots_with_colons, second_token, second_token_of};

verus! {

/// `gbe.tasks.email-send.queue` becomes `gbe:tasks:email-send:queue`.
pub fn subject_to_key(subject: &str) -> (r: String)
    ensures
        r@ == replace_char(subject@, '.', ':'),
{
    replace_dots_with_colons(subject)
}

/// The domain (second token) of a colon-delimited stream key, or `unknown`.
pub fn extract_domain(stream_key: &str) -> (r: &str)
    ensures
        r@ == second_token(stream_key@, ':'),
{
    second_token_of(stream_key, ':')
}

/// `gbe:_deadletter:{domain}`, the dead-letter key for entries of `stream_key`.
pub fn dead_letter_key(stream_key: &str) -> (r: String)
    ensures
        r@ == "gbe:_deadletter:"@ + second_token(stream_key@, ':'),
{
    let mut s = String::from_str("gbe:_deadletter:");
    s.append(extract_domain(stream_key));
    s
}

/// The stream id from which a new server-side consumer group reads.
pub open spec fn start_id(start: StartPosition) -> Seq<char> {
    match start {
        StartPosition::Latest => "$"@,
        StartPosition::Earliest => "0"@,
        StartPosition::Id(id) => id@,
        StartPosition::Timestamp(ts) => decimal(ts as nat) + "-0"@,
    }
}

/// `$` for Latest, `0` for Earliest, the id itself, or `{ts}-0`.
pub fn group_start_id(start: &StartPosition) -> (r: String)
    ensures
        r@ == start_id(*start),
{
    match start {
        StartPosition::Latest => String::from_str("$"),
        StartPosition::Earliest => String::from_str("0"),
        StartPosition::Id(id) => id.clone(),
        StartPosition::Timestamp(ts) => {
            let mut s = String::new();
            append_decimal(&mut s, *ts);
            s.append("-0");
            assert(s@ =~= decimal(*ts as nat) + "-0"@);
            s
        },
    }
}

/// What the driver of a server-side consumer group does next.
#[derive(Debug, Clone, Copy, PartialEq, Eq, Structural)]
pub enum DriverAction {
    /// Too many unacknowledged entries: sleep briefly, then decide again.
    Backoff,
    /// Reclaim entries idle past the ack timeout, then read new ones.
    ReclaimThenRead,
    /// Read new entries.
    Read,
}

/// Decides the next driver step from the reported pending count (`None`
/// when it could not be read), the cap, and the milliseconds since the last
/// reclaim, which runs every half ack timeout.
pub fn next_action(pending: Option<u64>, max_inflight: u32, ms_since_reclaim: u64, ack_timeout_ms: u64) -> (r: DriverAction)
    ensures
        (pending matches Some(p) && p >= max_inflight) ==> r == DriverAction::Backoff,
        !(pending matches Some(p) && p >= max_inflight) ==> r == (if ms_since_reclaim >= ack_timeout_ms / 2 {
            DriverAction::ReclaimThenRead
        } else {
            DriverAction::Read
        }),
{
    match pending {
        Some(p) => {
            if p >= max_inflight as u64 {
                return DriverAction::Backoff;
            }
        },
        None => {},
    }
    if ms_since_reclaim >= ack_timeout_ms / 2 {
        DriverAction::ReclaimThenRead
    } else {
        DriverAction::Read
    }
}

/// A read that timed out is no error and needs no backoff; any other
/// error sleeps before the next attempt.
pub fn backoff_after_read_error(timed_out: bool) -> (r: bool)
    ensures
        r == !timed_out,
{
    !timed_out
}

} // verus!
