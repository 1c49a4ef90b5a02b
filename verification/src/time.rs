//! Points in time and spans of time, in whole nanoseconds.
use vstd::prelude::*;

verus! {

/// A span of time.
#[derive(Debug, Clone, Copy, PartialEq, Eq, Structural)]
pub struct Duration {
    /// Length in nanoseconds.
    pub nanos: u128,
}

impl View for Duration {
    type V = nat;

    open spec fn view(&self) -> nat {
        self.nanos as nat
    }
}

impl Duration {
    /// A span of `millis` milliseconds.
    pub fn from_millis(millis: u64) -> (span: Duration)
        ensures
            span@ == millis * 1_000_000,
    {
        Duration { nanos: millis as u128 * 1_000_000 }
    }
}

/// A point in time: nanoseconds since the origin of the [`Clock`] it was read
/// from.
#[derive(Debug, Clone, Copy, PartialEq, Eq, Structural)]
pub struct Instant {
    /// Distance from the clock's origin.
    pub nanos: u128,
}

impl View for Instant {
    type V = int;

    open spec fn view(&self) -> int {
        self.nanos as int
    }
}

/// Nanoseconds from `earlier` to `later`, zero where `earlier` comes after
/// `later`.
pub open spec fn elapsed(later: int, earlier: int) -> nat {
    if later >= earlier {
        (later - earlier) as nat
    } else {
        0
    }
}

impl Instant {
    /// The time that went by from `earlier` to this instant; zero if `earlier`
    /// is the later of the two.
    pub fn duration_since(&self, earlier: Instant) -> (span: Duration)
        ensures
            span@ == elapsed(self@, earlier@),
    {
        Duration { nanos: self.nanos.saturating_sub(earlier.nanos) }
    }
}

/// The monotonic clock of the standard library.
#[verifier::external_type_specification]
#[verifier::external_body]
pub struct ExStdInstant(std::time::Instant);

/// A monotonic clock, started at some moment of this process.
#[derive(Debug, Clone, Copy)]
pub struct Clock {
    origin: std::time::Instant,
}

/// Reads the monotonic clock through `std::time::Instant::now`. Which moment
/// comes back depends on when the call is made, so nothing is claimed of it.
#[verifier::external_body]
fn std_now() -> std::time::Instant {
    std::time::Instant::now()
}

/// Reads through `std::time::Instant::elapsed` how many nanoseconds went by
/// since `origin`. How many depends on when the call is made, so nothing is
/// claimed of it.
#[verifier::external_body]
fn nanos_since(origin: &std::time::Instant) -> u128 {
    origin.elapsed().as_nanos()
}

impl Clock {
    /// Whether `at` is a moment that was read from this clock.
    pub closed spec fn reads(&self, at: Instant) -> bool {
        call_ensures(nanos_since, (&self.origin,), at.nanos)
    }

    /// Whether the origin of this clock was read from the monotonic clock.
    pub closed spec fn started(&self) -> bool {
        call_ensures(std_now, (), self.origin)
    }

    /// Starts a clock whose origin is the present moment, whichever that is.
    pub fn start() -> (clock: Clock)
        ensures
            clock.started(),
    {
        Clock { origin: std_now() }
    }

    /// The present moment, as this clock counts. It depends on when the call is
    /// made, so it can be any; but it is read from the clock.
    pub fn now(&self) -> (now: Instant)
        ensures
            self.reads(now),
    {
        Instant { nanos: nanos_since(&self.origin) }
    }
}

/// What a clock reads, and where it starts, comes from the standard library's
/// clock.
proof fn readings_come_from_the_clock(clock: Clock, at: Instant)
    ensures
        clock.reads(at) ==> call_ensures(nanos_since, (&clock.origin,), at.nanos),
        clock.started() ==> call_ensures(std_now, (), clock.origin),
{
}

/// What the clock gives out when it is asked for the time is one of its
/// readings.
pub proof fn now_is_a_reading(clock: Clock, at: Instant)
    requires
        call_ensures(Clock::now, (&clock,), at),
    ensures
        clock.reads(at),
{
}

/// Spans and points in time stand for their nanoseconds.
pub proof fn views_are_nanoseconds(span: Duration, at: Instant)
    ensures
        span@ == span.nanos,
        at@ == at.nanos,
{
}

/// The time that went by leads from the earlier point to the later one; from a
/// point to one that is no later, none went by.
pub proof fn elapsed_leads_to_later(later: int, earlier: int)
    ensures
        earlier <= later ==> earlier + elapsed(later, earlier) == later,
        earlier >= later ==> elapsed(later, earlier) == 0,
{
}

} // verus!
