//! The monotonic clock that time stamps are taken from.
//!
//! A time stamp is a count of nanoseconds since the clock was started, so
//! that everything that depends on time can be stated over plain integers.

use std::time::{Duration, Instant};
use vstd::prelude::*;

verus! {

/// `std::time::Instant`, a reading of the monotonic clock. Its value is
/// hidden: it is only carried from one clock function to the next.
#[verifier::external_type_specification]
#[verifier::external_body]
pub struct ExInstant(Instant);

/// `Instant::now` reads the machine's monotonic clock; nothing is claimed
/// of what it returns.
pub assume_specification[ Instant::now ]() -> Instant;

/// `Instant::saturating_duration_since` gives the time from `earlier` to
/// `this`, zero where `earlier` is the later one; nothing is claimed of it
/// here, since an `Instant` has no value that a contract could speak of.
pub assume_specification[ Instant::saturating_duration_since ](
    this: &Instant,
    earlier: Instant,
) -> Duration;

/// `Duration::as_nanos` gives the whole span in nanoseconds; nothing is
/// claimed of it here, a `Duration` being as opaque as an `Instant`.
pub assume_specification[ Duration::as_nanos ](this: &Duration) -> u128;

/// A monotonic clock with its own origin.
pub struct Clock {
    origin: Instant,
}

impl Clock {
    /// Starts a clock; its time stamps count from this moment.
    pub fn start() -> Clock {
        Clock { origin: Instant::now() }
    }

    /// Nanoseconds since the clock was started, held at `u64::MAX` should
    /// they ever exceed it.
    pub fn now(&self) -> u64 {
        let elapsed = Instant::now().saturating_duration_since(self.origin);
        time_stamp(elapsed.as_nanos())
    }
}

/// The time stamp for a span of `nanos` nanoseconds: the span itself, held
/// at `u64::MAX` where it is longer than that.
pub open spec fn stamp_of(nanos: u128) -> u64 {
    if nanos > u64::MAX {
        u64::MAX
    } else {
        nanos as u64
    }
}

/// The time stamp for a span of `nanos` nanoseconds, as a clock gives it
/// for the span since it was started.
pub fn time_stamp(nanos: u128) -> (stamp: u64)
    ensures
        stamp == stamp_of(nanos),
{
    if nanos > u64::MAX as u128 {
        u64::MAX
    } else {
        nanos as u64
    }
}

/// Time from `earlier` to `now` in nanoseconds; zero where `earlier` is
/// the later of the two.
pub open spec fn elapsed(now: u64, earlier: u64) -> int {
    if now >= earlier {
        now - earlier
    } else {
        0
    }
}

/// Time from `earlier` to `now` in nanoseconds; zero where `earlier` is
/// the later of the two.
pub fn elapsed_nanos(now: u64, earlier: u64) -> (span: u64)
    ensures
        span == elapsed(now, earlier),
{
    if now >= earlier {
        now - earlier
    } else {
        0
    }
}

} // verus!
