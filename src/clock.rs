use vstd::prelude::*;

verus! {

/// Relies on `std::time::SystemTime::now`: the wall clock in milliseconds
/// since the Unix epoch, or 0 for a clock set before it. Nothing is promised
/// of the value.
#[verifier::external_body]
pub fn unix_millis() -> (r: u64) {
    match std::time::SystemTime::now().duration_since(std::time::UNIX_EPOCH) {
        Ok(d) => d.as_millis() as u64,
        Err(_) => 0,
    }
}

/// Relies on `ulid::Ulid::new` and `Ulid::to_string`: a fresh ULID in its
/// 26-character Crockford base-32 text form.
#[verifier::external_body]
pub fn new_ulid() -> (r: String)
    ensures
        r@.len() == 26,
{
    ulid::Ulid::new().to_string()
}

} // verus!
