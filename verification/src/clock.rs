//! Elapsed time since a fixed start.

use vstd::prelude::*;

verus! {

/// A point of `std`'s monotonic clock.
#[verifier::external_type_specification]
#[verifier::external_body]
pub struct ExInstant(std::time::Instant);

/// `Instant::now`. Nothing is promised of the point returned.
#[verifier::external_body]
pub(crate) fn instant_now() -> std::time::Instant {
    std::time::Instant::now()
}

/// Nanoseconds since `start`, by `Instant::elapsed`. Nothing is promised of
/// the count: it is whatever the clock says.
#[verifier::external_body]
pub(crate) fn elapsed_ns(start: &std::time::Instant) -> u64 {
    start.elapsed().as_nanos() as u64
}

} // verus!
