//! When jobs are due, stated on the two clocks.

use vstd::prelude::*;
use crate::model::{ErrorView, Trigger};
use crate::schedule::{
    cron_next, first_timing, is_due, lateness, names_zone, next_timing, pattern_after,
    pattern_fault, schedule_fault, schedule_trigger, ScheduleView, Timing,
};
use crate::tick::time_left;
use crate::time::{Reading, Timestamp};

verus! {

/// The next occurrence of an expression in a zone after an instant, as the calendar finds it.
pub open spec fn found_after(
    expression: Seq<char>,
    timezone: Seq<char>,
    after: Timestamp,
) -> Result<(int, int), Seq<char>> {
    pattern_after(
        expression,
        timezone,
        after.nanos as int / 1_000_000_000,
        after.nanos as int % 1_000_000_000,
    )
}

/// The next instant of a calendar schedule is the occurrence of its own expression in its own
/// zone, strictly after the given instant. It has none if the zone is unknown, if the expression
/// cannot be read, or if nothing occurs again; each is named, in this order.
pub proof fn calendar_is_read_in_its_zone(
    expression: Seq<char>,
    timezone: Seq<char>,
    after: Timestamp,
)
    ensures
        ({
            let next = cron_next(ScheduleView::Cron { expression, timezone }, after);
            &&& !names_zone(timezone) ==> next == Err::<Timestamp, ErrorView>(
                ErrorView::Invalid("unknown IANA timezone"@),
            )
            &&& names_zone(timezone) ==> (pattern_fault(expression) matches Some(text) ==> next
                == Err::<Timestamp, ErrorView>(ErrorView::Invalid(text)))
            &&& names_zone(timezone) && pattern_fault(expression) is None ==> match found_after(
                expression,
                timezone,
                after,
            ) {
                Ok((seconds, nanos)) => next == Ok::<Timestamp, ErrorView>(
                    Timestamp { nanos: (seconds * 1_000_000_000 + nanos) as i128 },
                ),
                Err(text) => next == Err::<Timestamp, ErrorView>(ErrorView::Invalid(text)),
            }
        }),
        cron_next(ScheduleView::Manual, after) == Err::<Timestamp, ErrorView>(
            ErrorView::Invalid("not cron"@),
        ),
{
}

/// A schedule without a calendar pattern has no next instant of one.
pub proof fn other_schedules_have_no_calendar(ms: u64, after: Timestamp)
    ensures
        cron_next(ScheduleView::Once { delay_ms: ms }, after) == Err::<Timestamp, ErrorView>(
            ErrorView::Invalid("not cron"@),
        ),
        cron_next(ScheduleView::Interval { every_ms: ms }, after) == Err::<Timestamp, ErrorView>(
            ErrorView::Invalid("not cron"@),
        ),
{
}

/// A job that is run on request only is always valid; a delay is if it is at most ten years of
/// 365 days, and an interval if it is also not zero; a calendar pattern is if it is known, can be
/// read, and occurs again.
pub proof fn schedule_is_valid_exactly_if(
    ms: u64,
    expression: Seq<char>,
    timezone: Seq<char>,
    now: Timestamp,
)
    ensures
        schedule_fault(ScheduleView::Manual, now) is None,
        schedule_fault(ScheduleView::Once { delay_ms: ms }, now) == if ms <= 10 * 365 * 24 * 60 * 60
            * 1000 {
            None
        } else {
            Some(ErrorView::Invalid("delay exceeds ten years"@))
        },
        schedule_fault(ScheduleView::Interval { every_ms: ms }, now) == if ms == 0 {
            Some(ErrorView::Invalid("zero interval"@))
        } else if ms <= 10 * 365 * 24 * 60 * 60 * 1000 {
            None
        } else {
            Some(ErrorView::Invalid("delay exceeds ten years"@))
        },
        schedule_fault(ScheduleView::Cron { expression, timezone }, now) == if !names_zone(
            timezone,
        ) {
            Some(ErrorView::Invalid("unknown IANA timezone"@))
        } else if pattern_fault(expression) is Some {
            Some(ErrorView::Invalid(pattern_fault(expression)->0))
        } else {
            match found_after(expression, timezone, now) {
                Ok(_) => None,
                Err(text) => Some(ErrorView::Invalid(text)),
            }
        },
{
}

/// Whether a timing waits for exactly a number of nanoseconds from now, on both clocks.
pub open spec fn waits_for(timing: Timing, nanos: int, now: Reading) -> bool {
    &&& timing.deadline matches Some(deadline) && deadline.nanos == now.mono.nanos + nanos
    &&& timing.next matches Some(next) && next.nanos == now.wall.nanos + nanos
}

/// Whether a timing waits for the occurrence of an expression in a zone after an instant, by the
/// wall clock alone.
pub open spec fn waits_for_calendar(
    timing: Timing,
    expression: Seq<char>,
    timezone: Seq<char>,
    after: Timestamp,
) -> bool {
    &&& timing.deadline is None
    &&& match found_after(expression, timezone, after) {
        Ok((seconds, nanos)) => timing.next == Some(
            Timestamp { nanos: (seconds * 1_000_000_000 + nanos) as i128 },
        ),
        Err(_) => timing.next is None,
    }
}

/// Whether a timing is that of a job whose valid schedule is registered now.
pub open spec fn begins(schedule: ScheduleView, timing: Timing, now: Reading) -> bool {
    match schedule {
        ScheduleView::Manual => timing.deadline is None && timing.next is None,
        ScheduleView::Once { delay_ms } => waits_for(timing, delay_ms * 1_000_000, now),
        ScheduleView::Interval { every_ms } => waits_for(timing, every_ms * 1_000_000, now),
        ScheduleView::Cron { expression, timezone } => waits_for_calendar(
            timing,
            expression,
            timezone,
            now.wall,
        ),
    }
}

/// A job first waits for its full delay, by the monotonic clock, or for the next occurrence of its
/// pattern in its zone, by the wall clock; one that is run on request only is never due.
pub proof fn first_wait_is_full(schedule: ScheduleView, now: Reading)
    requires
        now.usable(),
        schedule_fault(schedule, now.wall) is None,
    ensures
        begins(schedule, first_timing(schedule, now), now),
        schedule is Cron ==> first_timing(schedule, now).next is Some,
{
}

/// A job is due exactly when its deadline has come by the monotonic clock; one that has none,
/// when its instant has come by the wall clock; and one that has neither, never.
pub proof fn deadline_comes_before_instant(timing: Timing, now: Reading, other: Reading)
    ensures
        timing.deadline matches Some(deadline) ==> is_due(timing, now) == (deadline.nanos
            <= now.mono.nanos),
        timing.deadline is None ==> (timing.next matches Some(at) ==> is_due(timing, now) == (
        at.nanos <= now.wall.nanos)),
        timing.deadline is None && timing.next is None ==> !is_due(timing, now),
        timing.deadline is Some && now.mono == other.mono ==> is_due(timing, now) == is_due(
            timing,
            other,
        ) && lateness(timing, now) == lateness(timing, other) && time_left(timing, now)
            == time_left(timing, other),
{
}

/// A due job is as late as its deadline, or else its instant, lies behind; the time left until it
/// is due is as long as that lies ahead, and none exactly when it is due.
pub proof fn lateness_and_time_left(timing: Timing, now: Reading)
    ensures
        is_due(timing, now) ==> lateness(timing, now) == match timing.deadline {
            Some(deadline) => now.mono.nanos - deadline.nanos,
            None => now.wall.nanos - timing.next->0.nanos,
        },
        !is_due(timing, now) ==> lateness(timing, now) == 0,
        is_due(timing, now) <==> time_left(timing, now) == Some(0nat),
        time_left(timing, now) is None <==> timing.deadline is None && timing.next is None,
        !is_due(timing, now) && time_left(timing, now) is Some ==> time_left(timing, now)->0
            == match timing.deadline {
            Some(deadline) => deadline.nanos - now.mono.nanos,
            None => timing.next->0.nanos - now.wall.nanos,
        },
{
}

/// Every schedule but the manual one fires by itself, under the trigger of its own kind.
pub proof fn schedule_names_its_trigger(ms: u64, expression: Seq<char>, timezone: Seq<char>)
    ensures
        schedule_trigger(ScheduleView::Manual) is None,
        schedule_trigger(ScheduleView::Once { delay_ms: ms }) == Some(Trigger::Once),
        schedule_trigger(ScheduleView::Interval { every_ms: ms }) == Some(Trigger::Interval),
        schedule_trigger(ScheduleView::Cron { expression, timezone }) == Some(Trigger::Cron),
{
}

/// Whether a timing is that of a job with a valid schedule that was due at another timing and was
/// looked at now.
pub open spec fn continues(
    schedule: ScheduleView,
    before: Timing,
    after: Timing,
    now: Reading,
) -> bool {
    match schedule {
        ScheduleView::Manual => after.deadline is None && after.next is None,
        ScheduleView::Once { .. } => after.deadline is None && after.next is None,
        ScheduleView::Interval { every_ms } => exists|wait: int|
            {
                &&& 0 < wait <= every_ms * 1_000_000
                &&& #[trigger] waits_for(after, wait, now)
                &&& before.deadline is Some ==> (after.deadline->0.nanos
                    - before.deadline->0.nanos) % (every_ms * 1_000_000) == 0
            },
        ScheduleView::Cron { expression, timezone } => {
            let from = if before.next is Some && before.next->0.nanos > now.wall.nanos {
                before.next->0
            } else {
                now.wall
            };
            waits_for_calendar(after, expression, timezone, from)
        },
    }
}

/// Whether a schedule can be counted with: an interval is not zero and at most ten years long, and
/// a calendar pattern has a known zone and can be read.
pub open spec fn can_be_read(schedule: ScheduleView) -> bool {
    match schedule {
        ScheduleView::Interval { every_ms } => 0 < every_ms <= 10 * 365 * 24 * 60 * 60 * 1000,
        ScheduleView::Cron { expression, timezone } => names_zone(timezone) && pattern_fault(
            expression,
        ) is None,
        _ => true,
    }
}

/// After a job was due, an interval waits until the next whole period after the deadline that
/// passed, on both clocks; a calendar pattern waits for its next occurrence, in its own zone,
/// after both now and the instant that was consumed; and a single delay is never due again. Only
/// a pattern that does not occur again leaves an error, and it is the calendar's.
pub proof fn due_job_continues(schedule: ScheduleView, timing: Timing, now: Reading)
    requires
        now.usable(),
        can_be_read(schedule),
        is_due(timing, now),
        schedule is Interval ==> timing.deadline is Some,
        schedule is Cron ==> timing.deadline is None,
    ensures
        continues(schedule, timing, next_timing(schedule, timing, now).0, now),
        !(schedule is Cron) ==> next_timing(schedule, timing, now).1 is None,
        schedule matches ScheduleView::Cron { expression, timezone } ==> {
            let after = next_timing(schedule, timing, now);
            &&& after.0.next is Some ==> after.1 is None
            &&& after.0.next is None ==> after.1 == Some(
                ErrorView::Invalid(found_after(expression, timezone, now.wall)->Err_0),
            )
        },
{
    match schedule {
        ScheduleView::Interval { every_ms } => {
            let deadline = timing.deadline->0;
            crate::schedule::interval_keeps_anchor(every_ms, deadline, now);
            let period: int = every_ms * 1_000_000;
            let late: int = now.mono.nanos - deadline.nanos;
            assert(0 <= late % period < period) by (nonlinear_arith)
                requires
                    period > 0,
            ;
            let after = next_timing(schedule, timing, now).0;
            assert(waits_for(after, period - late % period, now));
        },
        _ => {},
    }
}

} // verus!
