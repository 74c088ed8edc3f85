//! Time as plain values: spans, monotonic instants and readings of the two system clocks.
//!
//! The library never reads a clock. Callers pass in what they read.

use vstd::prelude::*;

verus! {

/// Nanoseconds in one second.
pub const NANOS_PER_SEC: u128 = 1_000_000_000;

/// The latest instant that a clock may report, about 4 * 10^13 years after its origin.
pub const CLOCK_MAX: u128 = 0x10_0000_0000_0000_0000_0000_0000;

/// The longest span that `Duration::from_secs` gives.
pub const SECS_MAX_NANOS: u128 = 18_446_744_073_709_551_615_000_000_000;

/// The first second that RFC 3339 cannot write: the year 10000 begins.
pub const RFC3339_END: u128 = 253_402_300_800;

/// A span of time.
#[derive(Debug, Clone, Copy, PartialEq, Eq, PartialOrd, Ord, Structural)]
pub struct Duration {
    pub nanos: u128,
}

impl Duration {
    /// The span of `secs` seconds.
    pub open spec fn of_secs(secs: nat) -> Duration {
        Duration { nanos: (secs * NANOS_PER_SEC) as u128 }
    }

    /// The span of `secs` seconds.
    pub fn from_secs(secs: u64) -> (r: Duration)
        ensures
            r == Duration::of_secs(secs as nat),
            r.nanos == secs * NANOS_PER_SEC,
            r.nanos <= SECS_MAX_NANOS,
    {
        Duration { nanos: secs as u128 * NANOS_PER_SEC }
    }

    /// The span of `millis` milliseconds.
    pub fn from_millis(millis: u64) -> (r: Duration)
        ensures
            r.nanos == millis * 1_000_000,
    {
        Duration { nanos: millis as u128 * 1_000_000 }
    }

    /// Whole milliseconds in the span.
    pub fn as_millis(&self) -> (r: u128)
        ensures
            r == self.nanos / 1_000_000,
    {
        self.nanos / 1_000_000
    }
}

/// A reading of the monotonic clock, counted from an origin that all instants share.
#[derive(Debug, Clone, Copy, PartialEq, Eq, PartialOrd, Ord, Structural)]
pub struct Instant {
    pub nanos: u128,
}

impl Instant {
    /// True for the instants that a clock reports.
    pub open spec fn in_range(&self) -> bool {
        self.nanos <= CLOCK_MAX
    }

    /// The instant `d` after this one.
    pub open spec fn after(&self, d: Duration) -> Instant {
        Instant { nanos: (self.nanos + d.nanos) as u128 }
    }

    /// The span from `earlier` to this instant, zero if `earlier` is the later one.
    pub open spec fn since(&self, earlier: Instant) -> Duration {
        Duration {
            nanos: if self.nanos >= earlier.nanos {
                (self.nanos - earlier.nanos) as u128
            } else {
                0
            },
        }
    }

    /// The instant `d` after this one.
    pub fn plus(&self, d: Duration) -> (r: Instant)
        requires
            self.nanos + d.nanos <= u128::MAX,
        ensures
            r == self.after(d),
            r.nanos == self.nanos + d.nanos,
    {
        Instant { nanos: self.nanos + d.nanos }
    }

    /// The span from `earlier` to this instant, zero if `earlier` is the later one.
    pub fn saturating_duration_since(&self, earlier: Instant) -> (r: Duration)
        ensures
            r == self.since(earlier),
    {
        if self.nanos >= earlier.nanos {
            Duration { nanos: self.nanos - earlier.nanos }
        } else {
            Duration { nanos: 0 }
        }
    }
}

/// One reading of both clocks, taken together.
#[derive(Debug, Clone, Copy, PartialEq, Eq, Structural)]
pub struct Clock {
    /// The monotonic clock.
    pub now: Instant,
    /// The wall clock, in nanoseconds since the Unix epoch.
    pub wall: u128,
}

impl Clock {
    /// The wall-clock second since the Unix epoch that `i` falls in, by this reading.
    pub open spec fn unix_secs(&self, i: Instant) -> int {
        (self.wall + i.nanos - self.now.nanos) / NANOS_PER_SEC as int
    }

    /// True if RFC 3339 can write the wall-clock time of `i`: not before the epoch and not after
    /// the year 9999.
    pub open spec fn writable(&self, i: Instant) -> bool {
        0 <= self.wall + i.nanos - self.now.nanos && self.unix_secs(i) < RFC3339_END
    }
}

/// The text that `humantime::format_duration` gives for a whole number of seconds.
pub uninterp spec fn human_duration(secs: u64) -> Seq<char>;

/// The text that `humantime::format_rfc3339_seconds` gives for a number of seconds after the Unix
/// epoch.
pub uninterp spec fn rfc3339(unix_secs: u64) -> Seq<char>;

/// Calls `humantime::format_duration` on a whole number of seconds. The text depends on that
/// number alone.
#[verifier::external_body]
fn format_duration(secs: u64) -> (r: String)
    ensures
        r@ == human_duration(secs),
{
    humantime::format_duration(std::time::Duration::from_secs(secs)).to_string()
}

/// Calls `humantime::format_rfc3339_seconds` on the time `unix_secs` seconds after the Unix epoch.
/// It writes the years up to 9999 and panics on later ones. The text depends on the time alone.
#[verifier::external_body]
fn format_rfc3339_seconds(unix_secs: u64) -> (r: String)
    requires
        unix_secs < RFC3339_END,
    ensures
        r@ == rfc3339(unix_secs),
{
    let at = std::time::UNIX_EPOCH + std::time::Duration::from_secs(unix_secs);
    humantime::format_rfc3339_seconds(at).to_string()
}

/// The text of a span: its whole seconds, humanised. Spans of more than `u64::MAX` seconds are
/// written as `u64::MAX` seconds.
pub open spec fn dur_text(d: Duration) -> Seq<char> {
    let secs = d.nanos / NANOS_PER_SEC;
    human_duration(if secs <= u64::MAX {
        secs as u64
    } else {
        u64::MAX
    })
}

/// Whole seconds, humanised ("2h 5m 3s").
pub fn fmt_dur(d: Duration) -> (r: String)
    ensures
        r@ == dur_text(d),
{
    let secs: u128 = d.nanos / NANOS_PER_SEC;
    let shown: u64 = if secs <= u64::MAX as u128 {
        secs as u64
    } else {
        u64::MAX
    };
    format_duration(shown)
}

/// The text of an instant: its wall-clock time in RFC 3339, empty if that cannot be written.
pub open spec fn instant_text(i: Instant, clock: Clock) -> Seq<char> {
    if clock.writable(i) {
        rfc3339(clock.unix_secs(i) as u64)
    } else {
        Seq::empty()
    }
}

/// Converts a monotonic instant to wall-clock RFC 3339 (seconds precision), by the given reading
/// of the clocks. The text is empty for times that RFC 3339 cannot write.
pub fn fmt_instant(i: Instant, clock: &Clock) -> (r: String)
    ensures
        r@ == instant_text(i, *clock),
{
    let at: Option<u128> = if i.nanos >= clock.now.nanos {
        clock.wall.checked_add(i.nanos - clock.now.nanos)
    } else {
        clock.wall.checked_sub(clock.now.nanos - i.nanos)
    };
    match at {
        Some(t) => {
            let secs: u128 = t / NANOS_PER_SEC;
            if secs < RFC3339_END {
                format_rfc3339_seconds(secs as u64)
            } else {
                String::new()
            }
        },
        None => String::new(),
    }
}

/// `d.map(fmt_dur)`.
pub open spec fn opt_dur_text(d: Option<Duration>) -> Option<Seq<char>> {
    match d {
        Some(d) => Some(dur_text(d)),
        None => None,
    }
}

/// `i.map(fmt_instant)`.
pub open spec fn opt_instant_text(i: Option<Instant>, clock: Clock) -> Option<Seq<char>> {
    match i {
        Some(i) => Some(instant_text(i, clock)),
        None => None,
    }
}

/// Adding a span to an instant and asking how long ago that instant was gives the span back. A
/// second has a thousand million nanoseconds.
pub proof fn law_spans_are_measured(t: Instant, d: Duration, secs: u64)
    requires
        t.nanos + d.nanos <= u128::MAX,
    ensures
        t.after(d).since(t) == d,
        t.after(d).nanos >= t.nanos,
        t.since(t.after(d)).nanos == 0,
        Duration::of_secs(secs as nat).nanos == secs * 1_000_000_000,
{
}

/// A span is written as its whole seconds; what is left of a second is dropped.
pub proof fn law_spans_are_written_in_seconds(secs: u64, rest: u128)
    requires
        rest < 1_000_000_000,
    ensures
        dur_text(Duration { nanos: (secs * 1_000_000_000 + rest) as u128 }) == human_duration(secs),
{
    let nanos = secs * 1_000_000_000 + rest;
    assert(nanos / 1_000_000_000 == secs as int);
}

/// An instant is written as the wall-clock second it falls in, by the distance to the reading of
/// both clocks. Before 1970 and from the year 10000 on nothing is written.
pub proof fn law_instants_are_written_by_the_wall_clock(i: Instant, clock: Clock, secs: u64, rest: u128)
    requires
        rest < 1_000_000_000,
    ensures
        clock.wall + i.nanos == clock.now.nanos + secs * 1_000_000_000 + rest ==> instant_text(
            i,
            clock,
        ) == if secs < 253_402_300_800 {
            rfc3339(secs)
        } else {
            Seq::empty()
        },
        clock.wall + i.nanos < clock.now.nanos ==> instant_text(i, clock).len() == 0,
{
    let at = clock.wall + i.nanos - clock.now.nanos;
    if at == secs * 1_000_000_000 + rest {
        assert(at / 1_000_000_000 == secs as int);
    }
}

} // verus!
