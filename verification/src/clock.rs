//! Trusted access to the wall clock.

use vstd::prelude::*;

verus! {

/// Relies on `std::time::SystemTime::now` for the current wall-clock time,
/// in milliseconds since the Unix epoch (negative before it, saturating at
/// the representable ends).  Nothing is promised of the value: callers
/// state what holds whatever time comes back.
#[verifier::external_body]
pub fn now_millis() -> i64 {
    match std::time::SystemTime::now().duration_since(std::time::UNIX_EPOCH) {
        Ok(since) => i64::try_from(since.as_millis()).unwrap_or(i64::MAX),
        Err(before) => i64::try_from(before.duration().as_millis())
            .map(|ms| -ms)
            .unwrap_or(i64::MIN),
    }
}

} // verus!
