//! The monotonic clock that input recorders read.
use std::time::Duration;
use std::time::Instant;
use vstd::prelude::*;

verus! {

#[verifier::external_type_specification]
#[verifier::external_body]
pub struct ExInstant(Instant);

/// Calls `std::time::Instant::now`. What it returns depends on the time at which it is
/// called, so nothing is stated of it.
#[verifier::external_body]
pub(crate) fn instant_now() -> Instant {
    Instant::now()
}

/// Calls `std::time::Instant::elapsed`: the time that passed since `start` (zero if the
/// clock reads earlier). It depends on the time of the call, so nothing is stated of it.
#[verifier::external_body]
pub(crate) fn instant_elapsed(start: &Instant) -> Duration {
    start.elapsed()
}

/// Calls `std::time::Duration::as_secs`: the whole seconds of `d`. The result is a
/// function of `d`, which Verus sees as an opaque value, so nothing more is stated.
#[verifier::external_body]
pub(crate) fn duration_as_secs(d: &Duration) -> u64 {
    d.as_secs()
}

/// Calls `std::time::Duration::subsec_nanos`, which its documentation says is always
/// less than one billion.
#[verifier::external_body]
pub(crate) fn duration_subsec_nanos(d: &Duration) -> (n: u32)
    ensures
        n < 1_000_000_000,
{
    d.subsec_nanos()
}

} // verus!
