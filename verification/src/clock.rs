//! The boundary to the platform's monotonic clock.
//!
//! Nothing is promised of the values these functions return: what the clock
//! reads depends on when it is read. Callers state what holds of every
//! possible reading.

use vstd::prelude::*;

verus! {

#[verifier::external_type_specification]
#[verifier::external_body]
pub struct ExInstant(std::time::Instant);

/// Relies on `std::time::Instant::now`: an opaque reading of the monotonic
/// clock. No two calls are promised to agree, so nothing is ensured.
#[verifier::external_body]
pub(crate) fn instant_now() -> std::time::Instant {
    std::time::Instant::now()
}

/// Relies on `std::time::Instant::elapsed`: the span between `start` and a
/// fresh clock reading. The result depends on when the call happens, so
/// nothing is ensured.
#[verifier::external_body]
pub(crate) fn instant_elapsed(start: &std::time::Instant) -> std::time::Duration {
    start.elapsed()
}

/// The whole span of a `Duration` in nanoseconds. `Duration` is opaque
/// here, so the value gets a name rather than a definition; it depends on
/// the argument alone.
pub uninterp spec fn nanos_of(d: std::time::Duration) -> u128;

/// Relies on `std::time::Duration::as_nanos`: the whole span in
/// nanoseconds, a function of its argument alone, named [`nanos_of`].
#[verifier::external_body]
pub(crate) fn duration_as_nanos(d: &std::time::Duration) -> (r: u128)
    ensures
        r == nanos_of(*d),
{
    d.as_nanos()
}

} // verus!
