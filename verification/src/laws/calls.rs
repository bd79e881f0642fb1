//! What single calls answer, stated on what goes in and what comes back.

use vstd::prelude::*;
use vstd::utf8::encode_utf8;
use crate::client::{cancelled, shutdown_report, waited};
use crate::dto::{LogDto, RunDto};
use crate::encoding::{Bounded, Encoded};
use crate::ids::{hyphenated, spells, RunId};
use crate::inspect::{shows, Inspection};
use crate::job::{
    blocking_panicked, conclude, input_invalid, Decoding, Ending, Entrance, Job, JobDefinition,
};
use crate::journal::{
    admit_record, append_logs, call_result, change_views, finish_record, interrupted, recover,
    stored_views, CallEnd, Change, ChangeView, StoredRun, StoredView,
};
use crate::laws::shapes::{log_shape_says_the_log, reads, run_shape_says_the_record};
use crate::laws::store::{has_stranger, recovery_writes_unfinished_runs};
use crate::laws::timing::{begins, can_be_read, continues, found_after};
use crate::logging::{Fields, Level, Limited, LogPolicy};
use crate::model::{
    error_text, log_views, CancelResult, Cancellation, Completion, Error, ErrorView, JobError,
    JobErrorView, Limits, OutcomeView, OutputView, Page, Retention, RunCursor, RunLog, RunRecord,
    RunRecordView, RunStateView, ShutdownReport, Trigger,
};
use crate::pages::{clamp_limit, logs_page, runs_page, runs_query, RunsQuery};
use crate::reconcile::{asks_about, candidate_views, Candidate};
use crate::runner::{action_views, new_run, stepped, Action, Event, Run};
use crate::schedule::{
    advance, initial_due, is_due, names_zone, pattern_fault, schedule_fault, timing_fits, Schedule,
    Timing,
};
use crate::state::{ScopeSnapshot, State};
use crate::text::{decimal_text, parse_unsigned, same_text, text_bytes};
use crate::time::{rfc3339, to_rfc3339, Moment, Reading, Span, Timestamp};

verus! {

// ---- Defaults ----

/// What holds where nothing else is chosen: the default limits and retention, a log policy that
/// denies every event, a job that runs on request only and cannot be cancelled, and a scope that
/// nothing was applied to.
pub proof fn defaults_hold_unless_chosen(
    limits: Limits,
    retention: Retention,
    policy: LogPolicy,
    schedule: Schedule,
    cancellation: Cancellation,
    scope: ScopeSnapshot,
)
    requires
        call_ensures(Limits::default, (), limits),
        call_ensures(Retention::default, (), retention),
        call_ensures(LogPolicy::default, (), policy),
        call_ensures(Schedule::default, (), schedule),
        call_ensures(Cancellation::default, (), cancellation),
        call_ensures(ScopeSnapshot::default, (), scope),
    ensures
        limits.concurrency == 8,
        limits.input_bytes == 64 * 1024,
        limits.output_bytes == 64 * 1024,
        limits.lateness.nanos == 5_000_000_000,
        limits.retention == retention,
        retention.age.nanos == 7 * 24 * 60 * 60 * 1_000_000_000,
        retention.per_job == 100,
        retention.runs == 10_000,
        retention.bytes == 256 * 1024 * 1024,
        policy.targets@.dom() == Set::<Seq<char>>::empty(),
        policy.level == Level::Info,
        policy.queue_entries == 1024,
        policy.entry_bytes == 4096,
        policy.run_entries == 4096,
        policy.run_bytes == 1024 * 1024,
        schedule is Manual,
        cancellation == Cancellation::Unsupported,
        scope.source_revision == 0,
        scope.applied_revision is None,
        scope.last_error is None,
{
    assert(policy.targets@.dom() =~= Set::<Seq<char>>::empty());
}

/// A job that is defined by its key alone is named like it and runs on request only.
pub proof fn manual_job_is_defined_by_its_key(key: &str, definition: JobDefinition)
    requires
        call_ensures(JobDefinition::manual, (key,), definition),
    ensures
        definition.key@ == key@,
        definition.name@ == key@,
        definition.scope@ == "default"@,
        definition.managed_by@ == "application"@,
        definition.version == 1,
        definition.schedule is Manual,
        definition.cancellation == Cancellation::Unsupported,
{
}

// ---- Clients ----

/// A cancellation is answered as the service answers it; where it knows no such run, a run that the
/// journal knows is finished, and any other is not found.
pub proof fn cancellation_asks_the_service_first(
    active: Option<CancelResult>,
    kept: Option<&RunRecord>,
    answer: Result<CancelResult, Error>,
)
    requires
        call_ensures(cancelled, (active, kept), answer),
    ensures
        active matches Some(said) ==> answer == Ok::<CancelResult, Error>(said),
        active is None && kept is Some ==> answer == Ok::<CancelResult, Error>(
            CancelResult::AlreadyFinished,
        ),
        active is None && kept is None ==> (answer matches Err(e) && e@ == ErrorView::NotFound),
{
}

/// A waiter gets the completion of the record that the service shows, or else of the one that the
/// journal keeps.
pub proof fn waiter_gets_the_completion(
    id: RunId,
    shown: Option<&RunRecord>,
    kept: Option<&RunRecord>,
    answer: Result<Completion, Error>,
)
    requires
        call_ensures(waited, (id, shown, kept), answer),
    ensures
        ({
            let record = if shown is Some {
                shown
            } else {
                kept
            };
            match answer {
                Ok(completion) => record is Some && record->0@.state == RunStateView::Finished(
                    completion@,
                ),
                Err(e) => if record is Some {
                    !(record->0@.state is Finished) && e@ == ErrorView::WaitTimedOut(id@)
                } else {
                    e@ == ErrorView::NotFound
                },
            }
        }),
{
}

/// A shutdown that is not over reports every run that is still active, in the order shown; one that
/// is over reports none, and whether the journal has ended too.
pub proof fn shutdown_reports_what_is_left(
    left: Option<&Inspection>,
    joined: bool,
    report: ShutdownReport,
    i: int,
)
    requires
        call_ensures(shutdown_report, (left, joined), report),
    ensures
        left is None ==> report.remaining@.len() == 0 && !report.journal_degraded
            && report.closed == joined,
        left matches Some(inspection) ==> {
            &&& report.remaining@.len() == inspection.active@.len()
            &&& 0 <= i < inspection.active@.len() ==> report.remaining@[i]
                == inspection.active@[i].id
            &&& report.journal_degraded == inspection.journal_degraded
            &&& !report.closed
        },
{
    if left is Some {
        let active = (left->0).active@;
        let ids = crate::inspect::id_views(report.remaining@);
        assert(ids.len() == active.len());
        if 0 <= i < active.len() {
            assert(ids[i] == active[i]@.id);
            assert(ids[i] == report.remaining@[i]@);
        }
    }
}

/// A call ends with what the store answers, and else with a failure of its own: that the store
/// panicked, that nobody is left to answer, or that the time is over.
pub proof fn store_answers_are_handed_on<T>(end: CallEnd<T>, result: Result<T, Error>)
    requires
        call_ensures(call_result::<T>, (end,), result),
    ensures
        end matches CallEnd::Answered(answer) ==> result == answer,
        end is Panicked ==> (result matches Err(e) && e@ == ErrorView::Journal("store_panicked"@)),
        end is Closed ==> (result matches Err(e) && e@ == ErrorView::Stopped),
        end is Late ==> (result matches Err(e) && e@ == ErrorView::TimedOut),
{
}

// ---- Jobs ----

/// A job keeps its definition and its encoded input as given, if the input could be encoded and is
/// no larger than 64 KiB.
pub proof fn job_keeps_what_it_is_given(
    definition: JobDefinition,
    encoded: Result<String, Error>,
    job: Result<Job, Error>,
)
    requires
        call_ensures(Job::new, (definition, encoded), job),
    ensures
        job is Ok <==> (encoded matches Ok(input) && encode_utf8(input@).len() <= 64 * 1024),
        job matches Ok(made) ==> made.definition@ == definition@ && (encoded matches Ok(input)
            && made.input@ == input@),
        encoded matches Err(reason) ==> (job matches Err(e) && e@ == ErrorView::Invalid(
            error_text(reason@),
        )),
{
}

/// A job is checked by the sizes of its names and its input, by what its decoder says, and by its
/// schedule.
pub proof fn job_is_checked(
    job: Job,
    limit: usize,
    decoding: Decoding,
    now: Timestamp,
    checked: Result<(), Error>,
)
    requires
        call_ensures(Job::validate_definition, (&job, limit, &decoding, now), checked),
    ensures
        checked is Ok <==> {
            &&& 1 <= encode_utf8(job.definition.key@).len() <= 512
            &&& 1 <= encode_utf8(job.definition.scope@).len() <= 128
            &&& encode_utf8(job.definition.name@).len() <= 1024
            &&& encode_utf8(job.definition.managed_by@).len() <= 512
            &&& encode_utf8(job.input@).len() <= limit
            &&& decoding is Accepted
            &&& schedule_fault(job.definition.schedule@, now) is None
        },
{
}

/// What a handler's end becomes.
pub proof fn handler_end_is_concluded(ending: Ending, completion: Completion)
    requires
        call_ensures(conclude, (ending,), completion),
    ensures
        completion@.journal is Durable,
        ending matches Ending::Returned(Ok(text)) ==> completion@.outcome is Succeeded
            && completion@.output == OutputView::Json(text@),
        ending matches Ending::Returned(Err(_)) ==> completion@.outcome is Succeeded
            && completion@.output is Unavailable,
        ending matches Ending::Failed(error) ==> completion@.output is Nothing
            && if error.code@ == "cancelled"@ {
            completion@.outcome is Cancelled
        } else {
            completion@.outcome == OutcomeView::Failed(error@)
        },
        ending is Panicked ==> completion@.output is Nothing && completion@.outcome
            == OutcomeView::Failed(
            JobErrorView { code: "panicked"@, message: "Handler panicked"@ },
        ),
{
}

/// An input that no longer decodes, and a blocking handler that panicked, fail their run under
/// their own codes.
pub proof fn special_ends_are_failures(invalid: Ending, blocking: Ending)
    requires
        call_ensures(input_invalid, (), invalid),
        call_ensures(blocking_panicked, (), blocking),
    ensures
        invalid matches Ending::Failed(e) && e.code@ == "input_invalid"@ && e.message@
            == "Input schema changed"@,
        blocking matches Ending::Failed(e) && e.code@ == "panicked"@ && e.message@
            == "Blocking handler panicked"@,
{
}

/// The error that acknowledges a cancellation ends a run as cancelled.
pub proof fn acknowledgement_ends_as_cancelled(error: JobError, completion: Completion)
    requires
        call_ensures(JobError::cancelled, (), error),
        call_ensures(conclude, (Ending::Failed(error),), completion),
    ensures
        error.code@ == "cancelled"@,
        error.message@ == "Work acknowledged cancellation"@,
        completion@.outcome is Cancelled,
{
}

/// A kept output is read with the caller's parser; where there is none, or the parser does not take
/// it, the reason is handed out.
pub proof fn kept_output_is_read<T, F: FnOnce(&str) -> Option<T>>(
    completion: Completion,
    parse: F,
    value: Result<T, Error>,
)
    requires
        call_ensures(Completion::decode::<T, F>, (&completion, parse), value),
    ensures
        value matches Ok(v) ==> exists|text: &str, parsed: Option<T>|
            completion@.output == OutputView::Json(text@) && parsed == Some(v)
                && #[trigger] call_ensures(parse, (text,), parsed),
        completion@.output matches OutputView::Unavailable(code) ==> (value matches Err(e) && e@
            == ErrorView::OutputUnavailable(code)),
        completion@.output is Nothing ==> (value matches Err(e) && e@
            == ErrorView::OutputUnavailable("no_output"@)),
        completion@.output is Json ==> (value matches Err(e) ==> e@ == ErrorView::OutputUnavailable(
            "schema_mismatch"@,
        )),
{
}

/// An entrance lets children in until it is closed.
pub proof fn entrance_is_open_until_closed(entrance: Entrance, entered: Result<(), Error>)
    requires
        call_ensures(Entrance::enter, (&entrance,), entered),
    ensures
        !entrance.closed ==> entered is Ok,
        entrance.closed ==> (entered matches Err(e) && e@ == ErrorView::Stopped),
{
}

/// A sink's text is what was written into it, if the encoding was complete; else it failed for its
/// size exactly if a chunk was refused.
pub proof fn sink_hands_out_its_text(sink: Bounded, encoded: Encoded, text: Result<String, Error>)
    requires
        call_ensures(Bounded::into_text, (sink, encoded), text),
    ensures
        encoded is Complete ==> (text matches Ok(s) && encode_utf8(s@) == sink.bytes@),
        encoded is Failed ==> (text matches Err(e) && e@ == ErrorView::OutputUnavailable(
            if sink.overflow {
                "size_limit"@
            } else {
                "encoding_failed"@
            },
        )),
{
}

// ---- Schedules ----

/// The first timing of a valid schedule waits for its full delay, or for the next occurrence of its
/// own expression in its own zone.
pub proof fn first_timing_waits(schedule: Schedule, now: Reading, timing: Timing)
    requires
        now.usable(),
        schedule_fault(schedule@, now.wall) is None,
        call_ensures(initial_due, (&schedule, now), timing),
    ensures
        begins(schedule@, timing, now),
{
    crate::laws::timing::first_wait_is_full(schedule@, now);
}

/// The timing after a job was due goes on as its schedule says.
pub proof fn next_timing_goes_on(
    schedule: Schedule,
    timing: Timing,
    now: Reading,
    next: (Timing, Option<Error>),
)
    requires
        now.usable(),
        can_be_read(schedule@),
        timing_fits(schedule@, timing),
        is_due(timing, now),
        call_ensures(advance, (&schedule, &timing, now), next),
    ensures
        continues(schedule@, timing, next.0, now),
        next.1 is Some <==> schedule is Cron && next.0.next is None,
{
    crate::laws::timing::due_job_continues(schedule@, timing, now);
}

/// A calendar schedule's next instant lies after the given one and is the occurrence of its own
/// expression in its own zone.
pub proof fn next_instant_is_the_occurrence(
    expression: String,
    timezone: String,
    after: Timestamp,
    next: Result<Timestamp, Error>,
)
    requires
        call_ensures(Schedule::next_cron, (&Schedule::Cron { expression, timezone }, after), next),
    ensures
        next matches Ok(at) ==> {
            &&& at.nanos > after.nanos
            &&& names_zone(timezone@)
            &&& pattern_fault(expression@) is None
            &&& found_after(expression@, timezone@, after) matches Ok((seconds, nanos)) && at.nanos
                == (seconds * 1_000_000_000 + nanos) as i128
        },
        next is Err ==> !names_zone(timezone@) || pattern_fault(expression@) is Some
            || found_after(expression@, timezone@, after) is Err,
{
}

/// Whether a job is due, how late it is, and under which trigger it fires.
pub proof fn timing_is_read(
    timing: Timing,
    schedule: Schedule,
    now: Reading,
    due: bool,
    late: Span,
    trigger: Option<Trigger>,
)
    requires
        call_ensures(Timing::due, (&timing, now), due),
        call_ensures(Timing::late, (&timing, now), late),
        call_ensures(Schedule::trigger, (&schedule,), trigger),
    ensures
        due <==> match timing.deadline {
            Some(deadline) => deadline.nanos <= now.mono.nanos,
            None => timing.next is Some && timing.next->0.nanos <= now.wall.nanos,
        },
        due ==> late.nanos == match timing.deadline {
            Some(deadline) => now.mono.nanos - deadline.nanos,
            None => now.wall.nanos - timing.next->0.nanos,
        },
        trigger == match schedule {
            Schedule::Manual => None,
            Schedule::Once { .. } => Some(Trigger::Once),
            Schedule::Interval { .. } => Some(Trigger::Interval),
            Schedule::Cron { .. } => Some(Trigger::Cron),
        },
{
}

/// Instants are usable if the calendar holds them and every delay from them, with a day to spare on
/// both sides, and the monotonic clock has not run half its range.
pub proof fn clocks_are_usable_within_bounds(now: Reading, fits: bool, at: Timestamp, held: bool)
    requires
        call_ensures(Reading::is_usable, (now,), fits),
        call_ensures(Timestamp::is_representable, (at,), held),
    ensures
        held <==> -8_334_601_228_800 * 1_000_000_000 <= at.nanos < 8_210_266_876_800
            * 1_000_000_000,
        fits <==> {
            &&& (-8_334_601_228_800 + 24 * 60 * 60) * 1_000_000_000 <= now.wall.nanos
            &&& now.wall.nanos < (8_210_266_876_800 - 24 * 60 * 60 - 10 * 365 * 24 * 60 * 60)
                * 1_000_000_000
            &&& now.mono.nanos <= 0x7fff_ffff_ffff_ffff_ffff_ffff_ffff_ffff
        },
{
}

/// Spans count nanoseconds.
pub proof fn spans_count_nanoseconds(n: u64, seconds: Span, millis: Span)
    requires
        call_ensures(Span::from_secs, (n,), seconds),
        call_ensures(Span::from_millis, (n,), millis),
    ensures
        seconds.nanos == n * 1_000_000_000,
        millis.nanos == n * 1_000_000,
{
}

// ---- Journal ----

/// A record that is admitted is the record that was offered, under the sequence after the last.
pub proof fn admitted_record_is_the_one_offered(
    record: RunRecord,
    known: bool,
    previous: u64,
    answer: Result<(RunRecord, Vec<Change>), Error>,
)
    requires
        call_ensures(admit_record, (record, known, previous), answer),
    ensures
        answer is Ok <==> !known && previous < u64::MAX,
        answer matches Ok(saved) ==> saved.0@ == (RunRecordView {
            admission_sequence: (previous + 1) as u64,
            ..record@
        }),
        known ==> (answer matches Err(e) && e@ == ErrorView::AlreadySubmitted(record.id@)),
{
}

/// A batch of logs is written log by log, in order, if the run is known, has no result, and every
/// log is its own.
pub proof fn accepted_logs_are_written_in_order(
    existing: Option<&RunRecord>,
    logs: Vec<RunLog>,
    changes: Result<Vec<Change>, Error>,
    i: int,
)
    requires
        call_ensures(append_logs, (existing, &logs), changes),
    ensures
        changes is Ok <==> (existing matches Some(record) && !(record@.state is Finished)
            && !has_stranger(log_views(logs@), record@.id)),
        changes matches Ok(made) ==> made@.len() == logs@.len(),
        changes matches Ok(made) ==> (0 <= i < logs@.len() ==> made@[i]@
            == ChangeView::PutLog(logs@[i]@)),
{
    if changes is Ok {
        let made = (changes->Ok_0)@;
        let views = change_views(made);
        assert(views.len() == logs@.len());
        if 0 <= i < logs@.len() {
            assert(views[i] == made[i]@);
            assert(views[i] == ChangeView::PutLog(log_views(logs@)[i]));
        }
    }
}

/// A result is written after the logs that go with it.
pub proof fn accepted_result_is_written_last(
    record: RunRecord,
    existing: Option<&RunRecord>,
    logs: Vec<RunLog>,
    changes: Result<Vec<Change>, Error>,
    i: int,
)
    requires
        call_ensures(finish_record, (&record, existing, &logs), changes),
    ensures
        changes is Ok <==> (existing matches Some(known) && record@.state is Finished && (
        known@.state is Finished ==> known@ == record@) && known@.job == record@.job
            && known@.admission_sequence == record@.admission_sequence && !has_stranger(
            log_views(logs@),
            record@.id,
        )),
        changes matches Ok(made) ==> {
            &&& made@.len() == logs@.len() + 1
            &&& made@[logs@.len() as int]@ == ChangeView::PutRun(record@)
            &&& 0 <= i < logs@.len() ==> made@[i]@ == ChangeView::PutLog(
                logs@[i]@,
            )
        },
{
    if changes is Ok {
        let made = (changes->Ok_0)@;
        let views = change_views(made);
        assert(views.len() == logs@.len() + 1);
        assert(views[logs@.len() as int] == made[logs@.len() as int]@);
        if 0 <= i < logs@.len() {
            assert(views[i] == made[i]@);
            assert(views[i] == ChangeView::PutLog(log_views(logs@)[i]));
        }
    }
}

/// A query reads one row more than the page may hold, behind the cursor, or from the start.
pub proof fn query_reads_one_more(after: Option<RunCursor>, limit: usize, query: RunsQuery)
    requires
        call_ensures(runs_query, (after, limit), query),
    ensures
        limit == 0 ==> query.take == 2,
        1 <= limit <= 200 ==> query.take == limit + 1,
        limit > 200 ==> query.take == 201,
        after is None ==> query.after_sequence == 0 && query.after_id@ == ""@,
        after matches Some(cursor) ==> query.after_sequence == cursor.sequence && query.after_id@
            == hyphenated(cursor.id@),
{
}

/// A page of runs is made exactly if every row of the index led to a record. It holds the first
/// records, and a cursor to the last of them exactly if there are more.
pub proof fn runs_page_is_made_of_rows(
    rows: Vec<Option<RunRecord>>,
    limit: usize,
    page: Result<Page<RunRecord, RunCursor>, Error>,
    i: int,
)
    requires
        call_ensures(runs_page, (rows, limit), page),
    ensures
        page is Ok <==> forall|k: int| 0 <= k < rows@.len() ==> #[trigger] rows@[k] is Some,
        page matches Err(e) ==> e@ == ErrorView::Journal("orphan index"@),
        page matches Ok(made) ==> {
            &&& made.items@.len() <= rows@.len()
            &&& 0 <= i < made.items@.len() ==> made.items@[i]@ == (rows@[i]->0)@
            &&& made.next is Some <==> made.items@.len() < rows@.len()
        },
{
    if page is Ok {
        let made = page->Ok_0;
        let records = crate::pages::found_views(rows@);
        crate::laws::store::runs_page_is_the_first_records(made, records, limit);
        assert(records.len() == rows@.len());
        if 0 <= i < made.items@.len() {
            assert(records[i] == (rows@[i]->0)@);
            assert(made.items@[i]@ == records[i]);
        }
    }
}

/// A page of logs of an unknown run is not found; of a known one it holds what the reader makes of
/// the first rows, in order.
pub proof fn logs_page_is_made_of_rows<R, F: Fn(&R) -> Result<RunLog, Error>>(
    known: bool,
    rows: Vec<(R, usize)>,
    limit: usize,
    read: F,
    page: Result<Page<RunLog, u64>, Error>,
    i: int,
)
    requires
        call_ensures(logs_page::<R, F>, (known, &rows, limit, read), page),
    ensures
        !known ==> (page matches Err(e) && e@ == ErrorView::NotFound),
        page matches Ok(made) ==> {
            &&& made.items@.len() <= rows@.len()
            &&& rows@.len() > 0 ==> made.items@.len() > 0
            &&& 0 <= i < made.items@.len() ==> call_ensures(
                read,
                (&rows@[i].0,),
                Ok::<RunLog, Error>(made.items@[i]),
            )
            &&& made.next is Some <==> made.items@.len() < rows@.len()
            &&& made.next matches Some(at) ==> at == made.items@[made.items@.len() - 1].sequence
        },
{
    if page is Ok {
        let made = page->Ok_0;
        let sizes = crate::pages::row_sizes(rows@);
        crate::laws::store::logs_page_is_filled(made, sizes, limit);
        assert(sizes.len() == rows@.len());
    }
}

/// A limit is brought to between one and two hundred, and is else left as it is.
pub proof fn limits_are_clamped(limit: usize, clamped: usize)
    requires
        call_ensures(clamp_limit, (limit,), clamped),
    ensures
        1 <= clamped <= 200,
        1 <= limit <= 200 ==> clamped == limit,
        limit == 0 ==> clamped == 1,
        limit > 200 ==> clamped == 200,
{
}

/// Recovery writes exactly the unfinished runs, in their order, each as interrupted now.
pub proof fn recovery_writes_interrupted_runs(
    rows: Vec<StoredRun>,
    now: Timestamp,
    changes: Vec<Change>,
)
    requires
        call_ensures(recover, (&rows, now), changes),
    ensures
        change_views(changes@) == stored_views(rows@).filter(
            |row: StoredView| !(row.record.state is Finished),
        ).map_values(|row: StoredView| ChangeView::PutRun(interrupted(row, now))),
{
    let views = stored_views(rows@);
    recovery_writes_unfinished_runs(views, views.len(), now);
    assert(views.take(views.len() as int) =~= views);
}

/// A record and a log are put on the wire under their own identifiers, names and numbers.
pub proof fn shapes_are_made_of_values(record: RunRecord, run: RunDto, log: RunLog, entry: LogDto)
    requires
        call_ensures(RunDto::from_record, (record,), run),
        call_ensures(LogDto::from_log, (log,), entry),
    ensures
        run.id@ == hyphenated(record.id@),
        run.job@ == record.job@,
        reads(run.definition_version, record.definition_version),
        reads(run.admission_sequence, record.admission_sequence),
        reads(run.last_log_sequence, record.last_log_sequence),
        reads(run.dropped_log_count, record.dropped_log_count),
        entry.run_id@ == hyphenated(log.run_id@),
        reads(entry.sequence, log.sequence),
        entry.level@ == log.level@,
        entry.target@ == log.target@,
        entry.fields == log.fields,
{
    run_shape_says_the_record(run, record@);
    log_shape_says_the_log(entry, log@);
}

// ---- Owners and services ----

/// An owner that is made does nothing yet, and steps as the laws of owners say.
pub proof fn owners_step_as_stated(
    record: RunRecord,
    skip: bool,
    made: Run,
    run: Run,
    event: Event,
    done: (Run, Vec<Action>),
    wants: bool,
)
    requires
        call_ensures(Run::new, (record, skip), made),
        call_ensures(Run::step, (run, event), done),
        call_ensures(Run::wants_logs, (&run,), wants),
    ensures
        made@ == new_run(record@, skip),
        done.0@ == stepped(run@, event@).0,
        action_views(done.1@) == stepped(run@, event@).1,
        wants <==> run.phase is Executing && run.append is Idle,
{
}

/// A service starts empty and is not over; it is over exactly when it shuts down and neither runs
/// nor a maintenance are left.
pub proof fn services_end_when_nothing_is_left(
    limits: Limits,
    now: Moment,
    made: State,
    state: State,
    over: bool,
    key: &str,
    busy: bool,
)
    requires
        call_ensures(State::new, (limits, now), made),
        call_ensures(State::stopped, (&state,), over),
        call_ensures(State::busy, (&state, key), busy),
    ensures
        !made@.finished(),
        made@.active == Map::<u128, crate::state::ActiveView>::empty(),
        over <==> state.shutting_down && !state.maintaining && (forall|id: u128|
            !#[trigger] state@.active.contains_key(id)),
        busy <==> exists|id: u128| #[trigger]
            state@.active.contains_key(id) && state@.active[id].record.job == key@,
{
    if over {
        assert(forall|id: u128| !state@.active.dom().contains(id));
    }
    if forall|id: u128| !#[trigger] state@.active.contains_key(id) {
        assert(state@.active.dom() =~= Set::<u128>::empty());
    }
}

/// Decoders are asked about offered jobs in turn: each job is offered as it is, in order, with what
/// its own decoder said of it if it was asked.
pub proof fn offered_jobs_are_consulted_in_order<F: Fn(usize) -> Decoding>(
    state: State,
    scope: String,
    revision: u64,
    jobs: Vec<Job>,
    now: Timestamp,
    decode: F,
    candidates: Vec<Candidate>,
    i: usize,
)
    requires
        call_ensures(
            State::consult::<F>,
            (&state, &scope, revision, jobs, now, decode),
            candidates,
        ),
        i < jobs@.len(),
    ensures
        candidates@.len() == jobs@.len(),
        candidates@[i as int].job@ == jobs@[i as int]@,
        asks_about(state@, scope@, revision, candidate_views(candidates@), i as int, now)
            ==> call_ensures(decode, (i,), candidates@[i as int].decoding),
{
    let candidate = candidates@[i as int];
}

/// What an inspection shows, and what waiters of a run see, is what the service holds.
pub proof fn services_show_what_they_hold<'a>(
    state: &'a State,
    inspection: Inspection,
    id: RunId,
    seen: Option<Option<&'a RunRecord>>,
)
    requires
        call_ensures(State::inspect, (state,), inspection),
        call_ensures(State::watch, (state, id), seen),
    ensures
        shows(inspection, state@),
        seen is Some <==> state@.active.contains_key(id@),
        seen matches Some(Some(record)) ==> state@.active[id@].published == Some(record@),
        seen matches Some(None) ==> state@.active[id@].published is None,
{
}

// ---- Capture ----

/// Capturing an event starts exactly if the policy names its target and is at least as fine as its
/// level; it starts with nothing captured and with the fields that the policy allows there.
pub proof fn capture_starts_where_permitted<'a>(
    policy: &'a LogPolicy,
    level: Level,
    target: &str,
    fields: Option<Fields<'a>>,
)
    requires
        call_ensures(LogPolicy::open, (policy, level, target), fields),
    ensures
        fields is Some <==> policy.targets@.contains_key(target@) && match level {
            Level::Error => true,
            Level::Warn => policy.level != Level::Error,
            Level::Info => policy.level != Level::Error && policy.level != Level::Warn,
            Level::Debug => policy.level == Level::Debug || policy.level == Level::Trace,
            Level::Trace => policy.level == Level::Trace,
        },
        fields matches Some(f) ==> {
            &&& f.level == level
            &&& f.target@ == target@
            &&& f.allow@ == policy.targets@[target@]
            &&& f.values@ == Map::<Seq<char>, Seq<char>>::empty()
            &&& f.max == policy.entry_bytes
            &&& !f.overflow
        },
{
}

/// A bounded text starts empty, and a level is named as the journal keeps it.
pub proof fn captured_texts_begin_empty(max: usize, out: Limited, level: Level, name: String)
    requires
        call_ensures(Limited::new, (max,), out),
        call_ensures(Level::name, (level,), name),
    ensures
        out.text@.len() == 0,
        out.remaining == max,
        !out.overflow,
        name@ == match level {
            Level::Error => "ERROR"@,
            Level::Warn => "WARN"@,
            Level::Info => "INFO"@,
            Level::Debug => "DEBUG"@,
            Level::Trace => "TRACE"@,
        },
{
}

// ---- Texts ----

/// What is written is read back: numbers in decimal, identifiers in their canonical form.
pub proof fn texts_are_read_back(
    value: u64,
    written: String,
    line: &str,
    read: Option<u64>,
    id: RunId,
    text: String,
)
    requires
        call_ensures(decimal_text, (value,), written),
        line@ == written@,
        call_ensures(parse_unsigned, (line,), read),
        call_ensures(RunId::text, (&id,), text),
    ensures
        read == Some(value),
        text@ == hyphenated(id@),
        spells(text@, id@),
{
    crate::text::decimal_round_trip(value);
    crate::ids::text_spells_its_id(id@, id@);
}

/// A failure is written as its code, a colon and its message, an error as its own text.
pub proof fn failures_are_written(
    code: &str,
    message: &str,
    failure: JobError,
    line: String,
    error: Error,
    text: String,
)
    requires
        call_ensures(JobError::new, (code, message), failure),
        call_ensures(JobError::text, (&failure,), line),
        call_ensures(Error::text, (&error,), text),
    ensures
        failure.code@ == code@,
        failure.message@ == message@,
        line@ == code@ + ": "@ + message@,
        text@ == error_text(error@),
{
}

/// The completion of a record is the one that its state holds, if it is finished.
pub proof fn completion_is_read_from_the_state(
    record: &RunRecord,
    completion: Option<&Completion>,
)
    requires
        call_ensures(RunRecord::completion, (record,), completion),
    ensures
        completion is Some <==> record@.state is Finished,
        completion matches Some(held) ==> record@.state == RunStateView::Finished(held@),
{
}

/// Instants are split into whole seconds and the rest, joined from them, and measured against each
/// other, on either clock.
pub proof fn instants_are_measured(
    at: Timestamp,
    earlier: Timestamp,
    parts: (i64, u32),
    joined: Timestamp,
    span: Span,
    moment: Moment,
    before: Moment,
    passed: Span,
)
    requires
        call_ensures(Timestamp::split, (at,), parts),
        call_ensures(Timestamp::joined, (parts.0, parts.1), joined),
        call_ensures(Timestamp::span_since, (at, earlier), span),
        call_ensures(Moment::span_since, (moment, before), passed),
    ensures
        joined == at,
        at.nanos >= earlier.nanos ==> span.nanos == at.nanos - earlier.nanos,
        at.nanos < earlier.nanos ==> span.nanos == 0,
        moment.nanos >= before.nanos ==> passed.nanos == moment.nanos - before.nanos,
        moment.nanos < before.nanos ==> passed.nanos == 0,
{
    at.split_and_joined();
    assert(joined.nanos == at.nanos);
}

/// Texts are the same exactly if they have the same characters, and as long as their UTF-8 bytes.
pub proof fn texts_are_compared(a: &str, b: &str, same: bool, len: usize)
    requires
        call_ensures(same_text, (a, b), same),
        call_ensures(text_bytes, (a,), len),
    ensures
        same <==> a@ == b@,
        len == encode_utf8(a@).len(),
{
}

/// An instant is written as the calendar writes its whole seconds and the nanoseconds past them.
pub proof fn instants_are_written(at: Timestamp, text: String)
    requires
        call_ensures(to_rfc3339, (at,), text),
    ensures
        text@ == rfc3339(at.nanos as int / 1_000_000_000, at.nanos as int % 1_000_000_000),
{
}

} // verus!
