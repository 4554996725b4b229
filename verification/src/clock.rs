//! The clocks, read where the library needs the time.
use vstd::prelude::*;

verus! {

#[verifier::external_type_specification]
#[verifier::external_body]
pub struct ExInstant(std::time::Instant);

/// Nanoseconds since the Unix epoch by the system clock
/// (`SystemTime::now().duration_since(UNIX_EPOCH)`), or 0 when the clock is
/// set before the epoch. Nothing else is known of the value: it comes from
/// the clock, and two reads may give any two values.
#[verifier::external_body]
pub(crate) fn now_nanos() -> u128 {
    std::time::SystemTime::now().duration_since(std::time::UNIX_EPOCH).unwrap_or_default().as_nanos()
}

/// `Instant::now`: a reading of the monotonic clock. Nothing is known of it
/// here but that it is a reading.
#[verifier::external_body]
pub(crate) fn monotonic_now() -> std::time::Instant {
    std::time::Instant::now()
}

/// Whole milliseconds since `start` by the monotonic clock
/// (`Instant::elapsed`). The value comes from the clock; nothing is promised
/// of it here.
#[verifier::external_body]
fn millis_since(start: &std::time::Instant) -> u128 {
    start.elapsed().as_millis()
}

/// Milliseconds since `start` by the monotonic clock, saturated to `u64`.
pub(crate) fn elapsed_millis(start: &std::time::Instant) -> u64 {
    let ms = millis_since(start);
    if ms > u64::MAX as u128 {
        u64::MAX
    } else {
        ms as u64
    }
}

} // verus!
