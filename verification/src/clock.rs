//! The clocks of the machine.
use vstd::prelude::*;

verus! {

/// A point in time of the monotonic clock.
#[verifier::external_type_specification]
#[verifier::external_body]
pub struct ExInstant(std::time::Instant);

/// A point in time of the calendar clock.
#[verifier::external_type_specification]
#[verifier::external_body]
pub struct ExSystemTime(std::time::SystemTime);

/// The number of nanoseconds in a second.
pub const NANOS_PER_SEC: u64 = 1_000_000_000;

/// `std::time::Instant::now` reads the monotonic clock; nothing can be said of the reading.
pub assume_specification[ std::time::Instant::now ]() -> (r: std::time::Instant)
;

/// `std::time::Instant::elapsed` reads the monotonic clock again; nothing can be said of the time
/// that has passed.
pub assume_specification[ std::time::Instant::elapsed ](since: &std::time::Instant) -> (r:
    core::time::Duration)
;

/// `core::time::Duration::as_nanos` gives the length of a time that nothing is known of.
pub assume_specification[ core::time::Duration::as_nanos ](d: &core::time::Duration) -> (r: u128)
;

/// `core::time::Duration::as_secs` gives the length of a time that nothing is known of.
pub assume_specification[ core::time::Duration::as_secs ](d: &core::time::Duration) -> (r: u64)
;

/// `std::time::SystemTime::now` reads the calendar clock; nothing can be said of the reading.
pub assume_specification[ std::time::SystemTime::now ]() -> (r: std::time::SystemTime)
;

/// `std::time::SystemTime::duration_since` the Unix epoch fails on a time before it; nothing can be
/// said of the time that has passed.
#[verifier::external_body]
fn since_unix_epoch(t: std::time::SystemTime) -> (r: Option<core::time::Duration>) {
    t.duration_since(std::time::UNIX_EPOCH).ok()
}

/// A monotonic clock that starts at zero.
pub struct Clock {
    origin: std::time::Instant,
}

/// The number of nanoseconds as it fits in 64 bits, which is enough for 584 years.
pub fn clamp_nanos(nanos: u128) -> (r: u64)
    ensures
        r == (if nanos <= u64::MAX {
            nanos as u64
        } else {
            u64::MAX
        }),
{
    if nanos <= u64::MAX as u128 {
        nanos as u64
    } else {
        u64::MAX
    }
}

impl Clock {
    /// A clock that starts now.
    pub fn new() -> Clock {
        Clock { origin: std::time::Instant::now() }
    }

    /// The nanoseconds that have passed since the clock was made.
    pub fn now(&self) -> u64 {
        clamp_nanos(self.origin.elapsed().as_nanos())
    }
}

/// The seconds of a time after the Unix epoch; zero for a time before it.
pub fn secs_or_zero(since_epoch: Option<u64>) -> (r: u64)
    ensures
        r == (match since_epoch {
            Some(secs) => secs,
            None => 0,
        }),
{
    match since_epoch {
        Some(secs) => secs,
        None => 0,
    }
}

/// The time of the calendar clock, in seconds of Unix time; zero for a time before the epoch.
pub fn unix_secs() -> u64 {
    let since_epoch: Option<u64> = match since_unix_epoch(std::time::SystemTime::now()) {
        Some(d) => Some(d.as_secs()),
        None => None,
    };
    secs_or_zero(since_epoch)
}

} // verus!
