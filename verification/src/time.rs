//! Time readings: the `Duration` conversions the bucket needs and the
//! injected monotonic clock.
//!
//! `Duration` is opaque to the verifier, so every value of it is described by
//! `duration_nanos`, the total number of nanoseconds it spans.

use core::time::Duration;

use std::sync::Arc;

use clock_lib::{Clock, ManualClock, Monotonic, SystemClock};
use vstd::prelude::*;

verus! {

#[verifier::external_type_specification]
#[verifier::external_body]
pub struct ExMonotonic(Monotonic);

#[verifier::external_type_specification]
#[verifier::external_body]
pub struct ExSystemClock(SystemClock);

#[verifier::external_type_specification]
#[verifier::external_body]
pub struct ExManualClock(ManualClock);

/// The total number of nanoseconds that a `Duration` spans, as
/// `Duration::as_nanos` reports it.
pub uninterp spec fn duration_nanos(d: Duration) -> u128;

/// Nanoseconds spanned by `Duration::MAX` (`u64::MAX` seconds and
/// 999,999,999 nanoseconds).
pub open spec fn max_duration_nanos() -> int {
    18_446_744_073_709_551_615int * 1_000_000_000 + 999_999_999
}

/// Nanoseconds in one millisecond.
pub open spec fn nanos_per_ms() -> int {
    1_000_000
}

/// `Duration::as_nanos`: the result is `duration_nanos(d)` by definition of
/// that name.
#[verifier::external_body]
pub fn duration_as_nanos(d: Duration) -> (r: u128)
    ensures
        r == duration_nanos(d),
{
    d.as_nanos()
}

/// `Duration::from_millis`: std documents it as the duration of `ms`
/// milliseconds, so it spans `ms * 1_000_000` nanoseconds.
#[verifier::external_body]
pub fn duration_from_millis(ms: u64) -> (d: Duration)
    ensures
        duration_nanos(d) == ms * nanos_per_ms(),
{
    Duration::from_millis(ms)
}

/// `Duration::from_secs`: the duration of `secs` whole seconds, so it spans
/// `secs * 1_000_000_000` nanoseconds.
#[verifier::external_body]
pub fn duration_from_secs(secs: u64) -> (d: Duration)
    ensures
        duration_nanos(d) == secs * 1_000_000_000,
{
    Duration::from_secs(secs)
}

/// `Duration::MAX`, documented as `u64::MAX` seconds plus 999,999,999
/// nanoseconds.
#[verifier::external_body]
pub fn duration_max() -> (d: Duration)
    ensures
        duration_nanos(d) == max_duration_nanos(),
{
    Duration::MAX
}

/// `Duration::ZERO`, the duration that spans no time.
#[verifier::external_body]
pub fn duration_zero() -> (d: Duration)
    ensures
        duration_nanos(d) == 0,
{
    Duration::ZERO
}

/// A monotonic time source the bucket reads: clock-lib's clocks, and any
/// shared or borrowed one. Both readings depend on the clock, so nothing is
/// stated of them.
pub trait TimeSource {
    /// The current monotonic reading (`Clock::now`).
    fn reading(&self) -> Monotonic;

    /// The time elapsed since `since` on this source, zero if `since` is in
    /// its future (`Clock::elapsed`).
    fn elapsed_since(&self, since: Monotonic) -> Duration;
}

/// `Clock::now` on the operating-system clock: a reading of time, of which
/// nothing is stated.
#[verifier::external_body]
fn system_now(clock: &SystemClock) -> Monotonic {
    Clock::now(clock)
}

/// `Clock::elapsed` on the operating-system clock: a reading of time, of
/// which nothing is stated.
#[verifier::external_body]
fn system_elapsed(clock: &SystemClock, since: Monotonic) -> Duration {
    Clock::elapsed(clock, since)
}

/// `Clock::now` on a manual clock: its reading, of which nothing is stated.
#[verifier::external_body]
fn manual_now(clock: &ManualClock) -> Monotonic {
    Clock::now(clock)
}

/// `Clock::elapsed` on a manual clock: its reading, of which nothing is
/// stated.
#[verifier::external_body]
fn manual_elapsed(clock: &ManualClock, since: Monotonic) -> Duration {
    Clock::elapsed(clock, since)
}

impl TimeSource for SystemClock {
    fn reading(&self) -> Monotonic {
        system_now(self)
    }

    fn elapsed_since(&self, since: Monotonic) -> Duration {
        system_elapsed(self, since)
    }
}

impl TimeSource for ManualClock {
    fn reading(&self) -> Monotonic {
        manual_now(self)
    }

    fn elapsed_since(&self, since: Monotonic) -> Duration {
        manual_elapsed(self, since)
    }
}

impl<T: TimeSource> TimeSource for Arc<T> {
    fn reading(&self) -> Monotonic {
        let inner: &T = self;
        inner.reading()
    }

    fn elapsed_since(&self, since: Monotonic) -> Duration {
        let inner: &T = self;
        inner.elapsed_since(since)
    }
}

impl<T: TimeSource> TimeSource for Box<T> {
    fn reading(&self) -> Monotonic {
        (**self).reading()
    }

    fn elapsed_since(&self, since: Monotonic) -> Duration {
        (**self).elapsed_since(since)
    }
}

impl<'a, T: TimeSource> TimeSource for &'a T {
    fn reading(&self) -> Monotonic {
        (**self).reading()
    }

    fn elapsed_since(&self, since: Monotonic) -> Duration {
        (**self).elapsed_since(since)
    }
}

/// `SystemClock::new`: the operating-system clock, a unit value.
pub assume_specification[ SystemClock::new ]() -> SystemClock;

/// The 32-bit millisecond tick of an elapsed time: whole milliseconds,
/// wrapping every 2^32 ms (about 49.7 days).
pub open spec fn spec_tick(nanos: int) -> int {
    (nanos / nanos_per_ms()) % 0x1_0000_0000
}

/// Converts an elapsed time into the bucket's wrapping millisecond tick.
pub fn tick_of(elapsed: Duration) -> (ms: u32)
    ensures
        ms == spec_tick(duration_nanos(elapsed) as int),
{
    let nanos = duration_as_nanos(elapsed);
    let millis = nanos / 1_000_000;
    let wrapped = millis % 0x1_0000_0000;
    wrapped as u32
}

} // verus!
