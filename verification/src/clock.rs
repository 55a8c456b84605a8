//! Monotonic clock access for the time-bounded transfer logic.
//!
//! A measurement reads the clock, then hands the elapsed time to a verified
//! decision function; nothing is assumed about the values the clock returns.

use vstd::prelude::*;

verus! {

/// Declares std::time::Instant for use in signatures and fields; a value
/// of it is opaque here and only the wrappers below touch it.
#[verifier::external_type_specification]
#[verifier::external_body]
pub struct ExInstant(std::time::Instant);

/// Relies on std::time::Instant::now: a reading of the monotonic clock.
/// Nothing holds of the value returned.
#[verifier::external_body]
pub fn instant_now() -> std::time::Instant {
    std::time::Instant::now()
}

/// Relies on std::time::Instant::elapsed: the time since `start`, which
/// depends on when the call runs, so nothing holds of the result.
#[verifier::external_body]
pub fn instant_elapsed(start: &std::time::Instant) -> std::time::Duration {
    start.elapsed()
}

/// Relies on std::time::Duration::as_millis: the whole milliseconds of the
/// duration. No contract depends on the value, so none is stated; the cast
/// narrows a count that stays far below `u64::MAX` for any elapsed time a
/// run can observe.
#[verifier::external_body]
pub fn duration_as_millis(d: &std::time::Duration) -> u64 {
    d.as_millis() as u64
}

} // verus!
