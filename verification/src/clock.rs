//! Reading the clocks of the machine.
use std::time::{Duration, Instant, SystemTime, SystemTimeError};

use vstd::prelude::*;

verus! {

/// `std::time::SystemTime`.
#[verifier::external_type_specification]
#[verifier::external_body]
pub struct ExSystemTime(std::time::SystemTime);

/// `std::time::SystemTimeError`.
#[verifier::external_type_specification]
#[verifier::external_body]
pub struct ExSystemTimeError(std::time::SystemTimeError);

/// `std::time::Instant`.
#[verifier::external_type_specification]
#[verifier::external_body]
pub struct ExInstant(std::time::Instant);

/// `SystemTime::now`. Nothing is claimed of what the clock shows.
pub assume_specification[ std::time::SystemTime::now ]() -> std::time::SystemTime;

/// `Instant::elapsed`. Nothing is claimed of how much time has passed.
pub assume_specification[ std::time::Instant::elapsed ](i: &std::time::Instant) -> std::time::Duration;

/// `Duration::as_nanos`. A duration is opaque here, so nothing is claimed of its length.
pub assume_specification[ std::time::Duration::as_nanos ](d: &std::time::Duration) -> u128;

/// `SystemTime::duration_since` with the Unix epoch as the earlier time. It fails for a clock that
/// is set before the epoch; nothing more is claimed.
#[verifier::external_body]
fn since_unix_epoch(t: &SystemTime) -> (r: Result<Duration, SystemTimeError>) {
    t.duration_since(std::time::UNIX_EPOCH)
}

/// The time that a reading of the system clock stands for: the nanoseconds since the Unix epoch that
/// it shows, or 0 if it is set before the epoch and shows none.
pub fn epoch_nanos(shown: Option<u128>) -> (r: u128)
    ensures
        r == match shown {
            Some(nanos) => nanos,
            None => 0,
        },
{
    match shown {
        Some(nanos) => nanos,
        None => 0,
    }
}

/// Nanoseconds since the Unix epoch, or 0 if the clock is set before it. The clock is read here and
/// may show anything, so nothing is stated of the number; [`epoch_nanos`] states what is made of a
/// reading.
pub(crate) fn unix_nanos() -> u128 {
    let shown = match since_unix_epoch(&SystemTime::now()) {
        Ok(d) => Some(d.as_nanos()),
        Err(_) => None,
    };
    epoch_nanos(shown)
}

/// Nanoseconds since `origin` on the monotonic clock. How much time has passed is up to the clock,
/// so nothing is stated of the number.
pub(crate) fn nanos_since(origin: &Instant) -> u128 {
    origin.elapsed().as_nanos()
}

} // verus!
