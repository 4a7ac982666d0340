//! Reading the monotonic clock.
use std::time::Duration;
use std::time::Instant;

use vstd::prelude::*;

verus! {

/// `std::time::Instant`, carried through as an opaque value.
#[verifier::external_type_specification]
#[verifier::external_body]
pub struct ExInstant(Instant);

/// `std::time::Instant::now`: the current reading of the monotonic clock.
/// Nothing is promised of the value, which depends on the time of the call.
#[verifier::external_body]
pub(crate) fn instant_now() -> Instant {
    Instant::now()
}

/// `std::time::Instant::elapsed`: the time passed since `since`. Nothing is
/// promised of the value, which depends on the time of the call.
#[verifier::external_body]
fn elapsed_since(since: &Instant) -> Duration {
    since.elapsed()
}

/// `Duration`'s `>`: whether the duration `a` is longer than `b`. The
/// durations are opaque here, so nothing is said of the answer.
#[verifier::external_body]
fn duration_exceeds(a: Duration, b: Duration) -> bool {
    a > b
}

/// Whether more than `period` has passed since `since`. The answer depends
/// on the time of the call, so nothing is promised of it.
pub(crate) fn period_has_elapsed(since: &Instant, period: Duration) -> bool {
    duration_exceeds(elapsed_since(since), period)
}

} // verus!
