//! Capture times, lengths of time and the node's monotonic clock.

use crate::call;
use std::time::Instant;
use vstd::prelude::*;

verus! {

/// A length of time in nanoseconds.
///
/// Wide enough for every count of seconds, milliseconds or nanoseconds that a
/// `u64` can hold.
#[derive(Clone, Copy, Debug, PartialEq, Eq, Structural)]
pub struct Span {
    pub nanos: u128,
}

impl Span {
    /// The length is one that `std::time::Duration` can hold: a `u64` of whole
    /// seconds, and less than one second.
    pub open spec fn within_duration(self) -> bool {
        self.nanos < 0x1_0000_0000_0000_0000 * 1_000_000_000
    }

    /// A length of `nanos` nanoseconds.
    pub fn from_nanos(nanos: u128) -> (span: Self)
        ensures
            span.nanos == nanos,
    {
        Span { nanos }
    }

    /// A length of `millis` milliseconds.
    pub fn from_millis(millis: u64) -> (span: Self)
        ensures
            span.nanos == millis * 1_000_000,
    {
        Span { nanos: millis as u128 * 1_000_000 }
    }

    /// A length of `secs` seconds.
    pub fn from_secs(secs: u64) -> (span: Self)
        ensures
            span.nanos == secs * 1_000_000_000,
    {
        Span { nanos: secs as u128 * 1_000_000_000 }
    }

    /// The length in nanoseconds.
    pub fn as_nanos(&self) -> (nanos: u128)
        ensures
            nanos == self.nanos,
    {
        self.nanos
    }

    /// How much longer this length is than `other`; zero where it is not longer.
    pub fn saturating_sub(&self, other: Span) -> (rest: Self)
        ensures
            rest.nanos == saturating_difference(self.nanos as int, other.nanos as int),
            rest.nanos == if self.nanos > other.nanos {
                self.nanos - other.nanos
            } else {
                0
            },
    {
        Span { nanos: self.nanos.saturating_sub(other.nanos) }
    }
}

/// `a - b`, or zero where `b` is the larger.
pub open spec fn saturating_difference(a: int, b: int) -> int {
    if a >= b {
        a - b
    } else {
        0
    }
}

/// Capture time reported by the sensor device, in nanoseconds against an epoch
/// that the sensor device and this node agree on.
#[derive(Clone, Copy, Debug, PartialEq, Eq, Structural)]
pub struct CaptureTimestamp {
    /// Nanoseconds since the epoch.
    pub nanos: u64,
}

impl CaptureTimestamp {
    /// The time `nanos` nanoseconds after the epoch.
    pub fn from_nanos(nanos: u64) -> (timestamp: Self)
        ensures
            timestamp.nanos == nanos,
    {
        CaptureTimestamp { nanos }
    }

    /// Nanoseconds since the epoch.
    pub fn as_nanos(&self) -> (nanos: u64)
        ensures
            nanos == self.nanos,
    {
        self.nanos
    }
}

impl Default for CaptureTimestamp {
    /// The epoch itself.
    fn default() -> (timestamp: Self)
        ensures
            timestamp.nanos == 0,
    {
        CaptureTimestamp { nanos: 0 }
    }
}

/// Declares `std::time::Instant`, a reading of the machine's monotonic clock.
/// Nothing is known of its inside.
#[verifier::external_type_specification]
#[verifier::external_body]
pub struct ExInstant(std::time::Instant);

/// Reads the machine's monotonic clock with `Instant::now`. Nothing is claimed
/// of the reading.
#[verifier::external_body]
pub(crate) fn instant_now() -> (reading: Instant)
{
    Instant::now()
}

/// Measures with `Instant::elapsed` how long ago `origin` was read, in
/// nanoseconds. The length depends on when the call is made; all that is
/// claimed of it is that it is a `Duration`, so a `u64` of whole seconds and
/// less than one second.
#[verifier::external_body]
pub(crate) fn nanos_since(origin: &Instant) -> (nanos: u128)
    ensures
        nanos < 0x1_0000_0000_0000_0000 * 1_000_000_000,
{
    origin.elapsed().as_nanos()
}

/// The node's monotonic clock. Its readings are lengths of time since it was
/// started; they are meaningful on this node only and serve recency checks.
pub struct NodeClock {
    pub(crate) origin: Instant,
}

impl NodeClock {
    /// The clock counts from a reading of the machine's monotonic clock.
    pub closed spec fn started(self) -> bool {
        call_ensures(instant_now, (), self.origin)
    }

    /// The clock gave `reading`: it is what measuring the time since the clock
    /// was started returned.
    pub closed spec fn reads(self, reading: Span) -> bool {
        call_ensures(nanos_since, (&self.origin,), reading.nanos)
    }

    /// Starts a clock.
    pub(crate) fn start() -> (clock: Self)
        ensures
            clock.started(),
            call_ensures(instant_now, (), clock.origin),
    {
        NodeClock { origin: call::call_none(instant_now) }
    }

    /// The time since the clock was started.
    pub(crate) fn read(&self) -> (reading: Span)
        ensures
            self.reads(reading),
            call_ensures(nanos_since, (&self.origin,), reading.nanos),
            reading.within_duration(),
    {
        Span { nanos: call::call_one(nanos_since, &self.origin) }
    }
}

/// A reading of a clock is, to the nanosecond, what measuring the time since the
/// clock's origin returned, and the origin is what reading the machine's clock
/// returned.
pub(crate) proof fn law_a_reading_is_what_was_measured(clock: NodeClock, reading: Span)
    ensures
        clock.reads(reading) <==> call_ensures(nanos_since, (&clock.origin,), reading.nanos),
        clock.started() <==> call_ensures(instant_now, (), clock.origin),
        reading.within_duration() <==> reading.nanos < 18_446_744_073_709_551_616_000_000_000,
{
}

/// How much later one time is than another, and zero where it is not later.
pub proof fn law_saturating_difference(a: int, b: int)
    ensures
        a > b ==> saturating_difference(a, b) + b == a,
        a <= b ==> saturating_difference(a, b) == 0,
{
}

} // verus!
