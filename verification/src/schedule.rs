//! When jobs are due: validation, first deadlines, and the deadline after a tick.

use vstd::prelude::*;
use vstd::std_specs::cmp::PartialEqSpecImpl;
use chrono::{DateTime, Utc};
use chrono_tz::Tz;
use croner::parser::{CronParser, Seconds, Year};
use crate::model::{Error, ErrorView, Trigger};
use crate::text::same_text;
use crate::time::{
    Moment, Reading, Span, Timestamp, LONGEST_DELAY, LONGEST_DELAY_MS, NANOS_PER_SECOND,
};

verus! {

/// When a job runs by itself.
#[derive(Debug)]
pub enum Schedule {
    Manual,
    Once { delay_ms: u64 },
    Interval { every_ms: u64 },
    Cron { expression: String, timezone: String },
}

pub enum ScheduleView {
    Manual,
    Once { delay_ms: u64 },
    Interval { every_ms: u64 },
    Cron { expression: Seq<char>, timezone: Seq<char> },
}

impl View for Schedule {
    type V = ScheduleView;

    open spec fn view(&self) -> ScheduleView {
        match self {
            Schedule::Manual => ScheduleView::Manual,
            Schedule::Once { delay_ms } => ScheduleView::Once { delay_ms: *delay_ms },
            Schedule::Interval { every_ms } => ScheduleView::Interval { every_ms: *every_ms },
            Schedule::Cron { expression, timezone } => ScheduleView::Cron {
                expression: expression@,
                timezone: timezone@,
            },
        }
    }
}

impl Clone for Schedule {
    fn clone(&self) -> (copy: Self)
        ensures
            copy == *self,
    {
        match self {
            Schedule::Manual => Schedule::Manual,
            Schedule::Once { delay_ms } => Schedule::Once { delay_ms: *delay_ms },
            Schedule::Interval { every_ms } => Schedule::Interval { every_ms: *every_ms },
            Schedule::Cron { expression, timezone } => Schedule::Cron {
                expression: expression.clone(),
                timezone: timezone.clone(),
            },
        }
    }
}

impl Default for Schedule {
    fn default() -> (schedule: Self)
        ensures
            schedule@ == ScheduleView::Manual,
    {
        Schedule::Manual
    }
}

impl PartialEq for Schedule {
    fn eq(&self, other: &Self) -> (same: bool) {
        match (self, other) {
            (Schedule::Manual, Schedule::Manual) => true,
            (Schedule::Once { delay_ms: a }, Schedule::Once { delay_ms: b }) => *a == *b,
            (Schedule::Interval { every_ms: a }, Schedule::Interval { every_ms: b }) => *a == *b,
            (
                Schedule::Cron { expression: a, timezone: x },
                Schedule::Cron { expression: b, timezone: y },
            ) => same_text(a.as_str(), b.as_str()) && same_text(x.as_str(), y.as_str()),
            _ => false,
        }
    }
}

impl PartialEqSpecImpl for Schedule {
    open spec fn obeys_eq_spec() -> bool {
        true
    }

    open spec fn eq_spec(&self, other: &Self) -> bool {
        self@ == other@
    }
}

impl Eq for Schedule {

}

/// The first second after which no calendar pattern is looked for.
pub const LAST_PATTERN_SECOND: i64 = 95_649_206_400;

/// The first second before which no calendar pattern is found.
pub const FIRST_PATTERN_SECOND: i64 = -62_135_683_200;

/// The instant of whole seconds since the epoch and the nanoseconds past them.
pub open spec fn instant(seconds: int, nanos: int) -> Timestamp {
    Timestamp { nanos: (seconds * NANOS_PER_SECOND + nanos) as i128 }
}

/// Whether a text names an IANA time zone, as `chrono_tz::Tz` reads names.
pub uninterp spec fn names_zone(name: Seq<char>) -> bool;

/// The complaint of the croner parser about an expression of five or six fields, if it has one.
pub uninterp spec fn pattern_fault(expression: Seq<char>) -> Option<Seq<char>>;

/// The first instant after a given one that matches a calendar pattern in a time zone, in whole
/// seconds and nanoseconds, as croner finds it, or its complaint that there is none.
pub uninterp spec fn pattern_after(
    expression: Seq<char>,
    timezone: Seq<char>,
    seconds: int,
    nanos: int,
) -> Result<(int, int), Seq<char>>;

/// Reads a zone name with `chrono_tz::Tz`'s `FromStr`, a lookup in a table that is part of the
/// crate. The claim is that the answer depends on the name alone, under the name `names_zone`.
#[verifier::external_body]
fn zone_known(name: &str) -> (known: bool)
    ensures
        known == names_zone(name@),
{
    name.parse::<Tz>().is_ok()
}

/// Reads an expression with `croner::parser::CronParser::parse`, with an optional seconds field
/// and no year field. The claim is that the complaint depends on the expression alone, under the
/// name `pattern_fault`.
#[verifier::external_body]
fn expression_fault(expression: &str) -> (fault: Option<String>)
    ensures
        fault is Some <==> pattern_fault(expression@) is Some,
        fault matches Some(text) ==> pattern_fault(expression@) == Some(text@),
{
    CronParser::builder().seconds(Seconds::Optional).year(Year::Disallowed).build().parse(
        expression,
    ).err().map(|e| e.to_string())
}

/// An answer of the search, by its view.
pub open spec fn found_parts(found: Result<(i64, u32), String>) -> Result<(int, int), Seq<char>> {
    match found {
        Ok(at) => Ok((at.0 as int, at.1 as int)),
        Err(text) => Err(text@),
    }
}

/// Looks for the next instant with `croner::Cron::find_next_occurrence`, exclusive of the given
/// one. The answer is a function of the arguments, under the name `pattern_after`. An instant
/// found is later than the given one, and lies in the years that croner searches: one to five
/// thousand, in local time.
#[verifier::external_body]
fn next_occurrence(expression: &str, timezone: &str, seconds: i64, nanos: u32) -> (found: Result<
    (i64, u32),
    String,
>)
    requires
        names_zone(timezone@),
        pattern_fault(expression@) is None,
        nanos < NANOS_PER_SECOND,
        instant(seconds as int, nanos as int).local_everywhere(),
    ensures
        found_parts(found) == pattern_after(
            expression@,
            timezone@,
            seconds as int,
            nanos as int,
        ),
        found matches Ok(at) ==> at.1 < NANOS_PER_SECOND,
        found matches Ok(at) ==> FIRST_PATTERN_SECOND <= at.0 < LAST_PATTERN_SECOND,
        found matches Ok(at) ==> at.0 > seconds || at.0 == seconds && at.1 > nanos,
{
    let zone: Tz = timezone.parse().expect("a known zone");
    let parser = CronParser::builder().seconds(Seconds::Optional).year(Year::Disallowed).build();
    let cron = parser.parse(expression).expect("a valid expression");
    let after = DateTime::<Utc>::from_timestamp(seconds, nanos).expect("within the calendar");
    match cron.find_next_occurrence(&after.with_timezone(&zone), false) {
        Ok(at) => Ok((at.timestamp(), at.timestamp_subsec_nanos())),
        Err(e) => Err(e.to_string()),
    }
}

/// What is known about a calendar pattern after a given instant.
#[derive(Debug)]
pub enum Occurrence {
    UnknownZone,
    BadExpression(String),
    Never(String),
    At(Timestamp),
}

pub enum OccurrenceView {
    UnknownZone,
    BadExpression(Seq<char>),
    Never(Seq<char>),
    At(Timestamp),
}

impl View for Occurrence {
    type V = OccurrenceView;

    open spec fn view(&self) -> OccurrenceView {
        match self {
            Occurrence::UnknownZone => OccurrenceView::UnknownZone,
            Occurrence::BadExpression(text) => OccurrenceView::BadExpression(text@),
            Occurrence::Never(text) => OccurrenceView::Never(text@),
            Occurrence::At(at) => OccurrenceView::At(*at),
        }
    }
}

/// The occurrence of a pattern after an instant.
pub open spec fn occurrence(
    expression: Seq<char>,
    timezone: Seq<char>,
    after: Timestamp,
) -> OccurrenceView {
    if !names_zone(timezone) {
        OccurrenceView::UnknownZone
    } else {
        match pattern_fault(expression) {
            Some(text) => OccurrenceView::BadExpression(text),
            None => match pattern_after(expression, timezone, after.seconds(), after.subsecond()) {
                Ok((seconds, nanos)) => OccurrenceView::At(instant(seconds, nanos)),
                Err(text) => OccurrenceView::Never(text),
            },
        }
    }
}

/// Whether an occurrence, if it is an instant, comes after another and can be counted from.
pub open spec fn follows(found: OccurrenceView, after: Timestamp) -> bool {
    found matches OccurrenceView::At(at) ==> at.nanos > after.nanos && at.schedulable()
}

/// Asks for the occurrence of a pattern after an instant.
fn ask_occurrence(expression: &str, timezone: &str, after: Timestamp) -> (found: Occurrence)
    requires
        after.local_everywhere(),
    ensures
        found@ == occurrence(expression@, timezone@, after),
        follows(found@, after),
{
    if !zone_known(timezone) {
        return Occurrence::UnknownZone;
    }
    match expression_fault(expression) {
        Some(text) => Occurrence::BadExpression(text),
        None => {
            let (seconds, rest) = after.split();
            proof {
                after.split_and_joined();
            }
            match next_occurrence(expression, timezone, seconds, rest) {
                Ok((found_seconds, found_rest)) => {
                    let at = Timestamp::joined(found_seconds, found_rest);
                    Occurrence::At(at)
                },
                Err(text) => Occurrence::Never(text),
            }
        },
    }
}

/// The instant of an occurrence, or the reason why there is none.
pub open spec fn occurrence_instant(found: OccurrenceView) -> Result<Timestamp, ErrorView> {
    match found {
        OccurrenceView::UnknownZone => Err(ErrorView::Invalid("unknown IANA timezone"@)),
        OccurrenceView::BadExpression(text) => Err(ErrorView::Invalid(text)),
        OccurrenceView::Never(text) => Err(ErrorView::Invalid(text)),
        OccurrenceView::At(at) => Ok(at),
    }
}

/// Turns an occurrence into its instant or an error.
pub fn read_occurrence(found: Occurrence) -> (next: Result<Timestamp, Error>)
    ensures
        next matches Ok(at) ==> occurrence_instant(found@) == Ok::<Timestamp, ErrorView>(at),
        next matches Err(e) ==> occurrence_instant(found@) == Err::<Timestamp, ErrorView>(e@),
{
    match found {
        Occurrence::UnknownZone => Err(Error::Invalid("unknown IANA timezone".to_string())),
        Occurrence::BadExpression(text) => Err(Error::Invalid(text)),
        Occurrence::Never(text) => Err(Error::Invalid(text)),
        Occurrence::At(at) => Ok(at),
    }
}

/// The next instant of a calendar schedule after a given one.
pub open spec fn cron_next(
    schedule: ScheduleView,
    after: Timestamp,
) -> Result<Timestamp, ErrorView> {
    match schedule {
        ScheduleView::Cron { expression, timezone } => occurrence_instant(
            occurrence(expression, timezone, after),
        ),
        _ => Err(ErrorView::Invalid("not cron"@)),
    }
}

/// What the length of a delay alone says against a schedule.
pub open spec fn delay_fault(schedule: ScheduleView) -> Option<ErrorView> {
    match schedule {
        ScheduleView::Interval { every_ms } => if every_ms == 0 {
            Some(ErrorView::Invalid("zero interval"@))
        } else if every_ms > LONGEST_DELAY_MS {
            Some(ErrorView::Invalid("delay exceeds ten years"@))
        } else {
            None
        },
        ScheduleView::Once { delay_ms } => if delay_ms > LONGEST_DELAY_MS {
            Some(ErrorView::Invalid("delay exceeds ten years"@))
        } else {
            None
        },
        _ => None,
    }
}

/// What speaks against a schedule at a given instant: a calendar pattern must occur again.
pub open spec fn schedule_fault(schedule: ScheduleView, now: Timestamp) -> Option<ErrorView> {
    match schedule {
        ScheduleView::Cron { .. } => match cron_next(schedule, now) {
            Ok(_) => None,
            Err(e) => Some(e),
        },
        _ => delay_fault(schedule),
    }
}

impl Schedule {
    /// Checks a schedule: no zero interval, no delay over ten years, and for a calendar pattern a
    /// known zone, a valid expression and a next occurrence.
    pub fn validate(&self, now: Timestamp) -> (checked: Result<(), Error>)
        requires
            now.local_everywhere(),
        ensures
            checked is Ok <==> schedule_fault(self@, now) is None,
            checked matches Err(e) ==> schedule_fault(self@, now) == Some(e@),
    {
        match self {
            Schedule::Interval { every_ms } => {
                if *every_ms == 0 {
                    Err(Error::Invalid("zero interval".to_string()))
                } else if *every_ms > LONGEST_DELAY_MS {
                    Err(Error::Invalid("delay exceeds ten years".to_string()))
                } else {
                    Ok(())
                }
            },
            Schedule::Once { delay_ms } => {
                if *delay_ms > LONGEST_DELAY_MS {
                    Err(Error::Invalid("delay exceeds ten years".to_string()))
                } else {
                    Ok(())
                }
            },
            Schedule::Cron { .. } => match self.next_cron(now) {
                Ok(_) => Ok(()),
                Err(e) => Err(e),
            },
            Schedule::Manual => Ok(()),
        }
    }

    /// The next instant of a calendar schedule, strictly after a given one.
    pub fn next_cron(&self, after: Timestamp) -> (next: Result<Timestamp, Error>)
        requires
            after.local_everywhere(),
        ensures
            next matches Ok(at) ==> cron_next(self@, after) == Ok::<Timestamp, ErrorView>(at)
                && at.nanos > after.nanos && at.schedulable(),
            next matches Err(e) ==> cron_next(self@, after) == Err::<Timestamp, ErrorView>(e@),
    {
        match self {
            Schedule::Cron { expression, timezone } => read_occurrence(
                ask_occurrence(expression.as_str(), timezone.as_str(), after),
            ),
            _ => Err(Error::Invalid("not cron".to_string())),
        }
    }
}

/// When a registered job is next due: by the monotonic clock if there is a deadline, else by the
/// wall clock if there is an instant, else never.
#[derive(Debug, Clone, Copy, PartialEq, Eq, Structural)]
pub struct Timing {
    pub deadline: Option<Moment>,
    pub next: Option<Timestamp>,
}

/// A span of milliseconds in nanoseconds.
pub open spec fn millis(ms: u64) -> int {
    ms * 1_000_000
}

/// The timing with which a job is registered: a full delay for a delayed schedule, the next
/// occurrence for a calendar pattern.
pub open spec fn first_timing(schedule: ScheduleView, now: Reading) -> Timing {
    match schedule {
        ScheduleView::Manual => Timing { deadline: None, next: None },
        ScheduleView::Once { delay_ms } => after_delay(delay_ms, now),
        ScheduleView::Interval { every_ms } => after_delay(every_ms, now),
        ScheduleView::Cron { .. } => Timing {
            deadline: None,
            next: match cron_next(schedule, now.wall) {
                Ok(at) => Some(at),
                Err(_) => None,
            },
        },
    }
}

/// The timing a number of milliseconds from now.
pub open spec fn after_delay(ms: u64, now: Reading) -> Timing {
    Timing {
        deadline: Some(Moment { nanos: (now.mono.nanos + millis(ms)) as u128 }),
        next: Some(Timestamp { nanos: (now.wall.nanos + millis(ms)) as i128 }),
    }
}

/// Whether the kinds of deadline fit a schedule, and each can still be counted with.
pub open spec fn timing_fits(schedule: ScheduleView, timing: Timing) -> bool {
    &&& timing.next matches Some(at) ==> at.local_everywhere()
    &&& match schedule {
        ScheduleView::Manual => timing.deadline is None && timing.next is None,
        ScheduleView::Once { .. } | ScheduleView::Interval { .. } => timing.deadline is Some
            <==> timing.next is Some,
        ScheduleView::Cron { .. } => timing.deadline is None,
    }
    &&& schedule is Interval ==> timing.deadline is Some
    &&& delay_fault(schedule) is None
}

fn delayed(ms: u64, now: Reading) -> (timing: Timing)
    requires
        now.usable(),
        ms <= LONGEST_DELAY_MS,
    ensures
        timing == after_delay(ms, now),
        timing.next matches Some(at) ==> at.local_everywhere(),
{
    let span = Span::from_millis(ms);
    assert(span.nanos <= LONGEST_DELAY);
    Timing {
        deadline: Some(Moment { nanos: now.mono.nanos + span.nanos }),
        next: Some(Timestamp { nanos: now.wall.nanos + span.nanos as i128 }),
    }
}

/// Computes the timing with which a job is registered.
pub fn initial_due(schedule: &Schedule, now: Reading) -> (timing: Timing)
    requires
        now.usable(),
        delay_fault(schedule@) is None,
    ensures
        timing == first_timing(schedule@, now),
        timing_fits(schedule@, timing),
{
    match schedule {
        Schedule::Manual => Timing { deadline: None, next: None },
        Schedule::Once { delay_ms } => delayed(*delay_ms, now),
        Schedule::Interval { every_ms } => delayed(*every_ms, now),
        Schedule::Cron { .. } => {
            let next = match schedule.next_cron(now.wall) {
                Ok(at) => Some(at),
                Err(_) => None,
            };
            Timing { deadline: None, next }
        },
    }
}

/// Whether a job is due.
pub open spec fn is_due(timing: Timing, now: Reading) -> bool {
    match timing.deadline {
        Some(deadline) => deadline.nanos <= now.mono.nanos,
        None => match timing.next {
            Some(at) => at.nanos <= now.wall.nanos,
            None => false,
        },
    }
}

/// How late a due job is.
pub open spec fn lateness(timing: Timing, now: Reading) -> nat {
    match timing.deadline {
        Some(deadline) => now.mono.since(deadline),
        None => match timing.next {
            Some(at) => now.wall.since(at),
            None => 0,
        },
    }
}

/// The trigger of a schedule that fires by itself.
pub open spec fn schedule_trigger(schedule: ScheduleView) -> Option<Trigger> {
    match schedule {
        ScheduleView::Manual => None,
        ScheduleView::Once { .. } => Some(Trigger::Once),
        ScheduleView::Interval { .. } => Some(Trigger::Interval),
        ScheduleView::Cron { .. } => Some(Trigger::Cron),
    }
}

impl Timing {
    /// Tests whether a job is due.
    pub fn due(&self, now: Reading) -> (due: bool)
        ensures
            due == is_due(*self, now),
    {
        match self.deadline {
            Some(deadline) => deadline.nanos <= now.mono.nanos,
            None => match self.next {
                Some(at) => at.nanos <= now.wall.nanos,
                None => false,
            },
        }
    }

    /// Measures how late a job is.
    pub fn late(&self, now: Reading) -> (span: Span)
        requires
            now.usable(),
            self.next matches Some(at) ==> at.local_everywhere(),
        ensures
            span.nanos == lateness(*self, now),
    {
        match self.deadline {
            Some(deadline) => now.mono.span_since(deadline),
            None => match self.next {
                Some(at) => now.wall.span_since(at),
                None => Span { nanos: 0 },
            },
        }
    }
}

impl Schedule {
    /// The trigger of a schedule that fires by itself.
    pub fn trigger(&self) -> (trigger: Option<Trigger>)
        ensures
            trigger == schedule_trigger(self@),
    {
        match self {
            Schedule::Manual => None,
            Schedule::Once { .. } => Some(Trigger::Once),
            Schedule::Interval { .. } => Some(Trigger::Interval),
            Schedule::Cron { .. } => Some(Trigger::Cron),
        }
    }
}

/// The time from now to the next multiple of a period after a deadline that has passed.
pub open spec fn rest_of_period(late: nat, every_ms: u64) -> int {
    millis(every_ms) - late as int % millis(every_ms)
}

/// The later of two instants.
pub open spec fn later(a: Timestamp, b: Timestamp) -> Timestamp {
    if a.nanos >= b.nanos {
        a
    } else {
        b
    }
}

/// The timing after a job was due: an interval keeps its anchor, a calendar pattern continues
/// after the later of now and the instant consumed, and a single delay is used up. A pattern
/// that does not occur again leaves an error.
pub open spec fn next_timing(schedule: ScheduleView, timing: Timing, now: Reading) -> (
    Timing,
    Option<ErrorView>,
) {
    match schedule {
        ScheduleView::Interval { every_ms } => {
            let rest = rest_of_period(lateness(timing, now), every_ms);
            (
                Timing {
                    deadline: Some(Moment { nanos: (now.mono.nanos + rest) as u128 }),
                    next: Some(Timestamp { nanos: (now.wall.nanos + rest) as i128 }),
                },
                None,
            )
        },
        ScheduleView::Cron { .. } => {
            let from = match timing.next {
                Some(at) => later(now.wall, at),
                None => now.wall,
            };
            match cron_next(schedule, from) {
                Ok(at) => (Timing { deadline: timing.deadline, next: Some(at) }, None),
                Err(e) => (Timing { deadline: timing.deadline, next: None }, Some(e)),
            }
        },
        _ => (Timing { deadline: None, next: None }, None),
    }
}

/// Whether the instant after a tick lies after now and after the instant that was consumed, so
/// that a wall clock set back fires no instant twice.
pub open spec fn not_replayed(before: Timing, after: Timing, now: Reading) -> bool {
    after.next matches Some(at) ==> at.nanos > now.wall.nanos && (before.next matches Some(used)
        ==> at.nanos > used.nanos)
}

/// Computes the timing after a job was due, with the error of a pattern that does not occur
/// again.
pub fn advance(schedule: &Schedule, timing: &Timing, now: Reading) -> (next: (
    Timing,
    Option<Error>,
))
    requires
        now.usable(),
        timing_fits(schedule@, *timing),
        is_due(*timing, now),
    ensures
        next.0 == next_timing(schedule@, *timing, now).0,
        next.1 is Some <==> next_timing(schedule@, *timing, now).1 is Some,
        next.1 matches Some(e) ==> next_timing(schedule@, *timing, now).1 == Some(e@),
        timing_fits(schedule@, next.0),
        schedule@ is Cron ==> not_replayed(*timing, next.0, now),
{
    match schedule {
        Schedule::Interval { every_ms } => {
            let late = timing.late(now);
            let period = Span::from_millis(*every_ms);
            assert(0 < period.nanos <= LONGEST_DELAY);
            let over: u128 = late.nanos % period.nanos;
            let rest: u128 = period.nanos - over;
            assert(rest == rest_of_period(late.nanos as nat, *every_ms));
            (
                Timing {
                    deadline: Some(Moment { nanos: now.mono.nanos + rest }),
                    next: Some(Timestamp { nanos: now.wall.nanos + rest as i128 }),
                },
                None,
            )
        },
        Schedule::Cron { .. } => {
            let from = match timing.next {
                Some(at) => if now.wall.nanos >= at.nanos {
                    now.wall
                } else {
                    at
                },
                None => now.wall,
            };
            match schedule.next_cron(from) {
                Ok(at) => (Timing { deadline: timing.deadline, next: Some(at) }, None),
                Err(e) => (Timing { deadline: timing.deadline, next: None }, Some(e)),
            }
        },
        _ => (Timing { deadline: None, next: None }, None),
    }
}

/// A due interval's next deadline lies after now, at most one period away, and a whole number of
/// periods after the deadline that passed: manual runs and late ticks do not move the anchor.
pub proof fn interval_keeps_anchor(every_ms: u64, deadline: Moment, now: Reading)
    requires
        now.usable(),
        delay_fault(ScheduleView::Interval { every_ms }) is None,
        deadline.nanos <= now.mono.nanos,
    ensures
        ({
            let timing = Timing { deadline: Some(deadline), next: None };
            let next = next_timing(ScheduleView::Interval { every_ms }, timing, now).0.deadline;
            &&& next is Some
            &&& now.mono.nanos < next->0.nanos <= now.mono.nanos + millis(every_ms)
            &&& (next->0.nanos - deadline.nanos) % millis(every_ms) == 0
        }),
{
    let period = millis(every_ms);
    let late = now.mono.nanos - deadline.nanos;
    let over = late % period;
    let whole = late / period;
    assert(late == period * whole + over) by (nonlinear_arith)
        requires
            period > 0,
            over == late % period,
            whole == late / period,
    ;
    assert(late + period - over == period * (whole + 1)) by (nonlinear_arith)
        requires
            late == period * whole + over,
    ;
    assert((period * (whole + 1)) % period == 0) by (nonlinear_arith)
        requires
            period > 0,
    ;
}

/// An interval first waits a full period.
pub proof fn interval_first_waits_a_period(every_ms: u64, now: Reading)
    requires
        now.usable(),
        delay_fault(ScheduleView::Interval { every_ms }) is None,
    ensures
        ({
            let timing = first_timing(ScheduleView::Interval { every_ms }, now);
            &&& timing.deadline == Some(
                Moment { nanos: (now.mono.nanos + millis(every_ms)) as u128 },
            )
            &&& !is_due(timing, now)
            &&& timing.deadline->0.nanos - now.mono.nanos == millis(every_ms)
        }),
{
}

/// A single delay is used up once it was due, late or not.
pub proof fn once_is_consumed(delay_ms: u64, timing: Timing, now: Reading, later: Reading)
    ensures
        !is_due(next_timing(ScheduleView::Once { delay_ms }, timing, now).0, later),
{
}

} // verus!
