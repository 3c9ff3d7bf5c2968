//! The wall clock, read when a tag is stored.
use vstd::prelude::*;
use std::time::{SystemTime, UNIX_EPOCH};

verus! {

/// Milliseconds since the Unix epoch by the system clock (`SystemTime::now`,
/// `duration_since(UNIX_EPOCH)`, `as_millis`), or `None` when the clock reads
/// before the epoch. Nothing is stated of the value, which depends on the time
/// of the call.
#[verifier::external_body]
pub fn current_timestamp_ms() -> Option<u128> {
    SystemTime::now().duration_since(UNIX_EPOCH).ok().map(|elapsed| elapsed.as_millis())
}

} // verus!
