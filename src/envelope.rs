use vstd::prelude::*;

use crate::clock::{new_ulid, unix_millis};

verus! {

/// Wire envelope wrapping every message on the transport. The transport
/// creates it; domain code sees only the payload.
#[derive(Debug)]
pub struct Envelope {
    /// Unique, transport-generated ULID.
    pub message_id: String,
    /// Routing subject, e.g. `gbe.tasks.email-send.queue`.
    pub subject: String,
    /// Unix milliseconds at publish time.
    pub timestamp: u64,
    /// Optional trace id for observability propagation.
    pub trace_id: Option<String>,
    /// Opaque payload bytes.
    pub payload: Vec<u8>,
}

/// The value an envelope carries.
pub ghost struct EnvelopeView {
    pub message_id: Seq<char>,
    pub subject: Seq<char>,
    pub timestamp: u64,
    pub trace_id: Option<Seq<char>>,
    pub payload: Seq<u8>,
}

pub open spec fn opt_view(o: Option<String>) -> Option<Seq<char>> {
    match o {
        Some(s) => Some(s@),
        None => None,
    }
}

impl View for Envelope {
    type V = EnvelopeView;

    open spec fn view(&self) -> EnvelopeView {
        EnvelopeView {
            message_id: self.message_id@,
            subject: self.subject@,
            timestamp: self.timestamp,
            trace_id: opt_view(self.trace_id),
            payload: self.payload@,
        }
    }
}

pub fn clone_opt_string(o: &Option<String>) -> (r: Option<String>)
    ensures
        opt_view(r) == opt_view(*o),
{
    match o {
        Some(s) => Some(s.clone()),
        None => None,
    }
}

impl Clone for Envelope {
    fn clone(&self) -> (r: Self)
        ensures
            r@ == self@,
    {
        Envelope {
            message_id: self.message_id.clone(),
            subject: self.subject.clone(),
            timestamp: self.timestamp,
            trace_id: clone_opt_string(&self.trace_id),
            payload: self.payload.clone(),
        }
    }
}

impl Envelope {
    /// A new envelope with a fresh ULID and the current time.
    pub fn new(subject: String, payload: Vec<u8>, trace_id: Option<String>) -> (r: Self)
        ensures
            r.message_id@.len() == 26,
            r.subject@ == subject@,
            r.payload@ == payload@,
            opt_view(r.trace_id) == opt_view(trace_id),
    {
        let message_id = new_ulid();
        let timestamp = unix_millis();
        Envelope { message_id, subject, timestamp, trace_id, payload }
    }
}

} // verus!
