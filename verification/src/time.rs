//! The wall clock, an external collaborator: only block timestamps come
//! from it, and nothing is promised of its value.

use vstd::prelude::*;

verus! {

/// Relies on std::time::SystemTime::now and duration_since(UNIX_EPOCH):
/// the current UNIX timestamp in milliseconds, 0 if the clock is before the
/// epoch. Nothing is promised of the value; no contract depends on it.
#[verifier::external_body]
pub fn now_ms() -> u64 {
    std::time::SystemTime::now().duration_since(std::time::UNIX_EPOCH).unwrap_or_else(
        |_| std::time::Duration::from_secs(0),
    ).as_millis() as u64
}

} // verus!
