//! The system clock, read as a count of nanoseconds.

use std::time::Duration;
use std::time::SystemTime;
use std::time::SystemTimeError;
use vstd::prelude::*;

verus! {

/// The number of nanoseconds in a second.
pub const NANOS_PER_SECOND: u128 = 1_000_000_000;

/// `std::time::SystemTime`, a reading of the system clock. Nothing is known
/// of what it holds.
#[verifier::external_type_specification]
#[verifier::external_body]
pub struct ExSystemTime(SystemTime);

/// `std::time::SystemTimeError`, the failure of `SystemTime::duration_since`.
#[verifier::external_type_specification]
#[verifier::external_body]
pub struct ExSystemTimeError(SystemTimeError);

/// `SystemTime::now` reads the system clock. The reading depends on the
/// machine and the moment, so nothing is claimed of it.
pub assume_specification[ std::time::SystemTime::now ]() -> (t: SystemTime);

/// `SystemTime::duration_since` measures the time from `earlier` to `t`, and
/// fails when `earlier` is the later of the two. The measure is not stated.
pub assume_specification[ std::time::SystemTime::duration_since ](
    t: &SystemTime,
    earlier: SystemTime,
) -> (r: Result<Duration, SystemTimeError>);

/// `Duration::as_nanos` gives the whole span in nanoseconds. A `Duration` is
/// opaque here, so the number is not stated.
pub assume_specification[ std::time::Duration::as_nanos ](d: &Duration) -> (n: u128);

/// `std::time::UNIX_EPOCH`, the Unix epoch as a point on the system clock.
#[verifier::external_body]
fn unix_epoch() -> (t: SystemTime) {
    std::time::UNIX_EPOCH
}

/// The system clock's reading in nanoseconds since the Unix epoch, or 0 when
/// the clock is set before the epoch.
pub fn now() -> (t: u128) {
    let reading = SystemTime::now();
    match reading.duration_since(unix_epoch()) {
        Ok(span) => span.as_nanos(),
        Err(_) => 0,
    }
}

/// A span of nanoseconds as whole seconds and the nanoseconds left over. A
/// span of more seconds than a `u64` holds is cut to the longest that fits.
pub open spec fn split_span(span: nat) -> (nat, nat) {
    if span / (NANOS_PER_SECOND as nat) > u64::MAX {
        (u64::MAX as nat, (NANOS_PER_SECOND - 1) as nat)
    } else {
        (span / (NANOS_PER_SECOND as nat), span % (NANOS_PER_SECOND as nat))
    }
}

/// Splits a span of nanoseconds into whole seconds and the nanoseconds left
/// over, the two numbers that a sleep takes.
pub fn seconds_and_nanos(span: u128) -> (parts: (u64, u32))
    ensures
        parts.0 == split_span(span as nat).0,
        parts.1 == split_span(span as nat).1,
        parts.1 < NANOS_PER_SECOND,
        parts.0 * NANOS_PER_SECOND + parts.1 <= span,
        span / NANOS_PER_SECOND <= u64::MAX ==> parts.0 * NANOS_PER_SECOND + parts.1 == span,
{
    let seconds = span / NANOS_PER_SECOND;
    let rest = span % NANOS_PER_SECOND;
    if seconds > u64::MAX as u128 {
        (u64::MAX, (NANOS_PER_SECOND - 1) as u32)
    } else {
        (seconds as u64, rest as u32)
    }
}

} // verus!
