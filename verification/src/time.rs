//! Wall-clock instants, monotonic instants and lengths of time.

use vstd::prelude::*;
use chrono::{DateTime, Utc};

verus! {

/// The first second of the calendar, counted from the Unix epoch.
pub const FIRST_SECOND: i64 = -8_334_601_228_800;

/// The last second of the calendar, counted from the Unix epoch.
pub const LAST_SECOND: i64 = 8_210_266_876_799;

pub const NANOS_PER_SECOND: i128 = 1_000_000_000;

/// A day, in nanoseconds.
pub const DAY: i128 = 86_400_000_000_000;

/// The longest delay a schedule may ask for, in milliseconds: ten years of 365 days.
pub const LONGEST_DELAY_MS: u64 = 315_360_000_000;

/// The longest delay in nanoseconds.
pub const LONGEST_DELAY: u128 = 315_360_000_000_000_000;

/// The last monotonic instant from which any delay can still be counted.
pub const LAST_MOMENT: u128 = 0x7fff_ffff_ffff_ffff_ffff_ffff_ffff_ffff;

/// A wall-clock instant, in nanoseconds since the Unix epoch.
#[derive(Debug, Clone, Copy, PartialEq, Eq, PartialOrd, Ord, Hash, Structural)]
pub struct Timestamp {
    pub nanos: i128,
}

impl Timestamp {
    /// Whether the calendar holds this instant.
    pub open spec fn representable(self) -> bool {
        FIRST_SECOND * NANOS_PER_SECOND <= self.nanos < (LAST_SECOND + 1) * NANOS_PER_SECOND
    }

    /// Whether the calendar holds this instant and a day on both sides of it, so that it has a
    /// local form in every time zone.
    pub open spec fn local_everywhere(self) -> bool {
        FIRST_SECOND * NANOS_PER_SECOND + DAY <= self.nanos < (LAST_SECOND + 1) * NANOS_PER_SECOND
            - DAY
    }

    /// Whether every delay that a schedule may ask for ends within the calendar, counted from
    /// this instant.
    pub open spec fn schedulable(self) -> bool {
        &&& self.local_everywhere()
        &&& self.nanos + LONGEST_DELAY < (LAST_SECOND + 1) * NANOS_PER_SECOND - DAY
    }

    /// Tests whether schedules can be counted from this instant.
    pub fn is_schedulable(self) -> (fits: bool)
        ensures
            fits == self.schedulable(),
    {
        let first: i128 = -8_334_601_228_800_000_000_000;
        let end: i128 = 8_210_266_876_800_000_000_000;
        assert(first == FIRST_SECOND * NANOS_PER_SECOND);
        assert(end == (LAST_SECOND + 1) * NANOS_PER_SECOND);
        first + DAY <= self.nanos && self.nanos < end - DAY - 315_360_000_000_000_000
    }

    /// Tests whether the calendar holds this instant.
    pub fn is_representable(self) -> (fits: bool)
        ensures
            fits == self.representable(),
    {
        let first: i128 = -8_334_601_228_800_000_000_000;
        let end: i128 = 8_210_266_876_800_000_000_000;
        assert(first == FIRST_SECOND * NANOS_PER_SECOND);
        assert(end == (LAST_SECOND + 1) * NANOS_PER_SECOND);
        first <= self.nanos && self.nanos < end
    }

    /// How much later this instant is than another, and nothing if it is not later.
    pub open spec fn since(self, earlier: Timestamp) -> nat {
        if self.nanos > earlier.nanos {
            (self.nanos - earlier.nanos) as nat
        } else {
            0
        }
    }

    /// Measures how much later this instant is than another.
    pub fn span_since(self, earlier: Timestamp) -> (span: Span)
        requires
            self.representable(),
            earlier.representable(),
        ensures
            span.nanos == self.since(earlier),
    {
        if self.nanos > earlier.nanos {
            Span { nanos: (self.nanos - earlier.nanos) as u128 }
        } else {
            Span { nanos: 0 }
        }
    }

    /// The whole seconds since the epoch, rounded towards the past.
    pub open spec fn seconds(self) -> int {
        self.nanos as int / NANOS_PER_SECOND as int
    }

    /// The nanoseconds past the whole second.
    pub open spec fn subsecond(self) -> int {
        self.nanos as int % NANOS_PER_SECOND as int
    }

    /// Splits an instant into whole seconds and the nanoseconds past them.
    pub fn split(self) -> (parts: (i64, u32))
        requires
            self.representable(),
        ensures
            parts.0 == self.seconds(),
            parts.1 == self.subsecond(),
            parts.1 < NANOS_PER_SECOND,
            FIRST_SECOND <= parts.0 <= LAST_SECOND,
    {
        let whole: i128 = NANOS_PER_SECOND;
        if self.nanos >= 0 {
            let seconds: i128 = self.nanos / whole;
            let rest: i128 = self.nanos % whole;
            assert(FIRST_SECOND <= seconds <= LAST_SECOND);
            (seconds as i64, rest as u32)
        } else {
            let distance: i128 = -(self.nanos + 1);
            let back: i128 = distance / whole;
            let short: i128 = distance % whole;
            let seconds: i128 = -back - 1;
            let rest: i128 = whole - 1 - short;
            proof {
                assert(distance == whole * back + short);
                assert(self.nanos == whole * seconds + rest);
                vstd::arithmetic::div_mod::lemma_fundamental_div_mod_converse(
                    self.nanos as int,
                    whole as int,
                    seconds as int,
                    rest as int,
                );
            }
            assert(FIRST_SECOND <= seconds <= LAST_SECOND);
            (seconds as i64, rest as u32)
        }
    }

    /// Joins whole seconds and the nanoseconds past them.
    pub fn joined(seconds: i64, rest: u32) -> (at: Timestamp)
        ensures
            at.nanos == seconds * NANOS_PER_SECOND + rest,
    {
        let whole: i128 = NANOS_PER_SECOND;
        assert(i64::MIN * whole <= seconds * whole <= i64::MAX * whole) by (nonlinear_arith)
            requires
                i64::MIN <= seconds <= i64::MAX,
                whole == 1_000_000_000,
        ;
        Timestamp { nanos: seconds as i128 * whole + rest as i128 }
    }

    /// Splitting an instant and joining the parts gives the instant back.
    pub proof fn split_and_joined(self)
        ensures
            self.seconds() * NANOS_PER_SECOND + self.subsecond() == self.nanos,
    {
    }
}

/// A monotonic instant, in nanoseconds since an origin of the process.
#[derive(Debug, Clone, Copy, PartialEq, Eq, PartialOrd, Ord, Hash, Structural)]
pub struct Moment {
    pub nanos: u128,
}

impl Moment {
    pub open spec fn countable(self) -> bool {
        self.nanos <= LAST_MOMENT
    }

    /// How much later this instant is than another, and nothing if it is not later.
    pub open spec fn since(self, earlier: Moment) -> nat {
        if self.nanos > earlier.nanos {
            (self.nanos - earlier.nanos) as nat
        } else {
            0
        }
    }

    /// Measures how much later this instant is than another.
    pub fn span_since(self, earlier: Moment) -> (span: Span)
        ensures
            span.nanos == self.since(earlier),
    {
        if self.nanos > earlier.nanos {
            Span { nanos: self.nanos - earlier.nanos }
        } else {
            Span { nanos: 0 }
        }
    }
}

/// A length of time in nanoseconds.
#[derive(Debug, Clone, Copy, PartialEq, Eq, PartialOrd, Ord, Hash, Structural)]
pub struct Span {
    pub nanos: u128,
}

impl Span {
    /// A span of whole seconds.
    pub fn from_secs(seconds: u64) -> (span: Span)
        ensures
            span.nanos == seconds * NANOS_PER_SECOND,
    {
        assert(seconds * 1_000_000_000u128 <= u64::MAX * 1_000_000_000u128) by (nonlinear_arith)
            requires
                seconds <= u64::MAX,
        ;
        Span { nanos: seconds as u128 * 1_000_000_000 }
    }

    /// A span of whole milliseconds.
    pub fn from_millis(millis: u64) -> (span: Span)
        ensures
            span.nanos == millis * 1_000_000,
    {
        assert(millis * 1_000_000u128 <= u64::MAX * 1_000_000u128) by (nonlinear_arith)
            requires
                millis <= u64::MAX,
        ;
        Span { nanos: millis as u128 * 1_000_000 }
    }
}

/// The two clocks as read at one point.
#[derive(Debug, Clone, Copy, PartialEq, Eq, Structural)]
pub struct Reading {
    pub wall: Timestamp,
    pub mono: Moment,
}

impl Reading {
    /// Whether every delay can be counted on both clocks.
    pub open spec fn usable(self) -> bool {
        self.wall.schedulable() && self.mono.countable()
    }

    /// Tests whether every delay can be counted on both clocks.
    pub fn is_usable(self) -> (fits: bool)
        ensures
            fits == self.usable(),
    {
        self.wall.is_schedulable() && self.mono.nanos <= LAST_MOMENT
    }
}

/// Wall-clock adapter. Interval deadlines use the monotonic clock instead.
pub trait Clock {
    fn now(&self) -> (at: Timestamp)
        ensures
            at.representable(),
    ;
}

/// The wall clock of the machine.
#[derive(Debug, Clone, Copy)]
pub struct SystemClock;

impl Clock for SystemClock {
    fn now(&self) -> (at: Timestamp)
        ensures
            at.nanos >= 0,
    {
        let (seconds, rest) = machine_clock();
        Timestamp::joined(seconds, rest)
    }
}

/// Reads the machine's clock with `chrono::Utc::now` and hands out its whole seconds and the
/// nanoseconds past them. The claim is only that the instant lies between the Unix epoch and the
/// end of the calendar: which instant it is depends on the machine.
#[verifier::external_body]
fn machine_clock() -> (parts: (i64, u32))
    ensures
        0 <= parts.0 <= LAST_SECOND,
        parts.1 < NANOS_PER_SECOND,
{
    let now = Utc::now();
    (now.timestamp(), now.timestamp_subsec_nanos())
}

/// The RFC 3339 form of an instant, as `chrono::DateTime::to_rfc3339` writes it in UTC.
pub uninterp spec fn rfc3339(seconds: int, nanos: int) -> Seq<char>;

/// Writes an instant with `chrono::DateTime::to_rfc3339`, after building it with
/// `DateTime::from_timestamp`, which has a value for every second of the calendar. The text is
/// a function of the instant alone, under the name `rfc3339`.
#[verifier::external_body]
fn write_rfc3339(seconds: i64, nanos: u32) -> (text: String)
    requires
        FIRST_SECOND <= seconds <= LAST_SECOND,
        nanos < NANOS_PER_SECOND,
    ensures
        text@ == rfc3339(seconds as int, nanos as int),
{
    DateTime::<Utc>::from_timestamp(seconds, nanos).expect("within the calendar").to_rfc3339()
}

/// The text of an instant of the calendar.
pub open spec fn instant_text(at: Timestamp) -> Seq<char> {
    rfc3339(at.seconds(), at.subsecond())
}

/// Writes an instant in UTC, in the form of RFC 3339.
pub fn to_rfc3339(at: Timestamp) -> (text: String)
    requires
        at.representable(),
    ensures
        text@ == instant_text(at),
{
    let (seconds, rest) = at.split();
    write_rfc3339(seconds, rest)
}

} // verus!
