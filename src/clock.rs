use vstd::prelude::*;
use std::time::Instant;

verus! {

#[verifier::external_type_specification]
#[verifier::external_body]
pub struct ExInstant(std::time::Instant);

/// Relies on `chrono::Utc::now` and `DateTime::timestamp_millis`: the
/// current wall-clock time in milliseconds since the Unix epoch. Nothing is
/// promised of the value.
#[verifier::external_body]
pub(crate) fn now_millis() -> (r: i64) {
    chrono::Utc::now().timestamp_millis()
}

/// Relies on `std::time::Instant::now`: a point of the monotonic clock.
#[verifier::external_body]
pub(crate) fn instant_now() -> (r: Instant) {
    Instant::now()
}

/// Relies on `Instant::elapsed` and `Duration::as_millis`: the whole
/// milliseconds since `origin`. Nothing is promised of the value.
#[verifier::external_body]
fn millis_since(origin: &Instant) -> (r: u128) {
    origin.elapsed().as_millis()
}

/// Milliseconds of the monotonic clock since `origin`, saturated to `i64`.
pub(crate) fn monotonic_millis(origin: &Instant) -> (r: i64)
    ensures
        r >= 0,
{
    let ms = millis_since(origin);
    if ms > i64::MAX as u128 {
        i64::MAX
    } else {
        ms as i64
    }
}

} // verus!
