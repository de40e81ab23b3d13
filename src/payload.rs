use vstd::prelude::*;

use crate::clock::unix_millis;

verus! {

/// The wrapper every domain producer emits inside an envelope's payload:
/// schema version, event time, dedup id and the domain body.
#[derive(Debug, Clone)]
pub struct DomainPayload<T> {
    /// Schema version (starts at 1, bumped on breaking changes).
    pub v: u32,
    /// Event time in unix milliseconds.
    pub ts: u64,
    /// Dedup key, unique per logical event.
    pub id: String,
    /// Domain-specific body.
    pub data: T,
}

impl<T> DomainPayload<T> {
    /// A payload stamped with the current time.
    pub fn new(v: u32, id: &str, data: T) -> (r: Self)
        ensures
            r.v == v,
            r.id@ == id@,
            r.data == data,
    {
        let ts = unix_millis();
        DomainPayload { v, ts, id: id.to_string(), data }
    }
}

} // verus!
