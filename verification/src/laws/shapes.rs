//! What values stand for: texts, defaults, wire shapes, and the answers made of them.

use vstd::prelude::*;
use vstd::std_specs::cmp::PartialEqSpec;
use vstd::utf8::encode_utf8;
use crate::client::wait_answer;
use crate::dto::{
    completion_stands, cursor_reads, log_page_stands, log_stands, run_page_stands, run_stands,
    CompletionDto, JournalDto, LogDto, LogPageDto, OutcomeDto, OutputDto, RunCursorDto, RunDto,
    RunPageDto, RunStateDto,
};
use crate::encoding::{encoding_fault, extended, Encoded};
use crate::ids::{hyphenated, spells, RunId};
use crate::job::{
    default_input_fault, ending_completion, job_fault, manual_definition, DecodingView, Ending,
    JobDefinition, JobView,
};
use crate::maintenance::{kept_up, Upkeep, UpkeepAction, UpkeepEvent};
use crate::model::{
    bare_completion, default_limits, default_retention, error_text, Cancellation, Completion,
    CompletionView, Error, ErrorView, JobError, JobErrorView, JournalState, JournalView, Outcome,
    OutcomeView, Output, OutputView, Page, RunCursor, RunLog, RunLogView, RunRecord, RunRecordView,
    RunState, RunStateView, Trigger,
};
use crate::runner::longer_pause;
use crate::schedule::{schedule_fault, Schedule};
use crate::sorted::Key;
use crate::text::{
    byte_len, bytes_precede, decimal, decimal_round_trip, digits_value, text_precedes,
    unsigned_value,
};
use crate::time::{instant_text, rfc3339, Moment, Timestamp};

verus! {

// ---- Time ----

/// An instant is as much later than another as its nanoseconds are more, and nothing if they are
/// not, on either clock.
pub proof fn later_by_the_difference(a: Timestamp, b: Timestamp, x: Moment, y: Moment)
    ensures
        a.nanos >= b.nanos ==> a.since(b) == a.nanos - b.nanos,
        a.nanos <= b.nanos ==> a.since(b) == 0,
        x.nanos >= y.nanos ==> x.since(y) == x.nanos - y.nanos,
        x.nanos <= y.nanos ==> x.since(y) == 0,
{
}

/// An instant is its whole seconds and less than a second past them, also before the epoch.
pub proof fn instant_splits_into_seconds(at: Timestamp)
    ensures
        at.nanos == at.seconds() * 1_000_000_000 + at.subsecond(),
        0 <= at.subsecond() < 1_000_000_000,
        instant_text(at) == rfc3339(at.seconds(), at.subsecond()),
{
}

// ---- Text ----

/// Texts sort by their UTF-8 bytes: where they first differ, the smaller byte comes first, and a
/// text comes before every longer one that begins with it.
pub proof fn texts_sort_by_bytes(a: Seq<char>, b: Seq<char>, k: int)
    requires
        0 <= k <= encode_utf8(a).len(),
        k < encode_utf8(b).len(),
        encode_utf8(a).take(k) == encode_utf8(b).take(k),
    ensures
        k == encode_utf8(a).len() ==> text_precedes(a, b) && !text_precedes(b, a),
        k < encode_utf8(a).len() && encode_utf8(a)[k] < encode_utf8(b)[k] ==> text_precedes(a, b)
            && !text_precedes(b, a),
        String::precedes(a, b) == text_precedes(a, b),
{
    if k == encode_utf8(a).len() || encode_utf8(a)[k] < encode_utf8(b)[k] {
        lemma_bytes_differ(encode_utf8(a), encode_utf8(b), k);
    }
}

proof fn lemma_bytes_differ(a: Seq<u8>, b: Seq<u8>, k: int)
    requires
        0 <= k <= a.len(),
        k < b.len(),
        a.take(k) == b.take(k),
        k == a.len() || a[k] != b[k],
    ensures
        bytes_precede(a, b) == (k == a.len() || a[k] < b[k]),
        bytes_precede(b, a) == (k < a.len() && b[k] < a[k]),
    decreases k,
{
    if k > 0 {
        assert(a[0] == a.take(k)[0]);
        assert(b[0] == b.take(k)[0]);
        let x = a.drop_first();
        let y = b.drop_first();
        assert(x.take(k - 1) =~= y.take(k - 1)) by {
            assert forall|i: int| 0 <= i < k - 1 implies x[i] == y[i] by {
                assert(a.take(k)[i + 1] == a[i + 1]);
                assert(b.take(k)[i + 1] == b[i + 1]);
            }
        }
        lemma_bytes_differ(x, y, k - 1);
    }
}

/// Identifiers sort as numbers, and positions in a history by their sequence and then by their
/// identifier.
pub proof fn keys_sort_as_numbers(a: u128, b: u128, x: (u64, u128), y: (u64, u128))
    ensures
        RunId::precedes(a, b) <==> a < b,
        RunCursor::precedes(x, y) <==> x.0 < y.0 || x.0 == y.0 && x.1 < y.1,
{
}

/// The length of a text is the number of its UTF-8 bytes.
pub proof fn length_counts_bytes(text: Seq<char>)
    ensures
        byte_len(text) == encode_utf8(text).len(),
{
}

/// The decimal form of a number below ten is its digit, and one more digit multiplies by ten.
pub proof fn decimal_grows_by_digits(value: nat, last: nat)
    requires
        last < 10,
    ensures
        decimal(last).len() == 1,
        decimal(last)[0] as int == '0' as int + last,
        value > 0 ==> decimal(value * 10 + last) == decimal(value).push(decimal(last)[0]),
{
    if value > 0 {
        let whole = value * 10 + last;
        assert(whole / 10 == value && whole % 10 == last);
    }
}

/// A text is read as a number exactly if it is decimal digits, at least one, behind at most one
/// plus sign, and the number fits; each digit further multiplies by ten.
pub proof fn numbers_are_read_digit_by_digit(digits: Seq<char>, last: char)
    ensures
        digits_value(Seq::empty()) == 0,
        '0' <= last <= '9' ==> digits_value(digits.push(last)) == digits_value(digits) * 10 + (
        last as int - '0' as int),
        unsigned_value(Seq::empty()) is None,
        unsigned_value(seq!['+']) is None,
        digits.len() > 0 && digits[0] != '+' ==> unsigned_value(seq!['+'] + digits)
            == unsigned_value(digits),
        digits.len() > 0 && digits[0] != '+' && unsigned_value(digits) is Some ==> forall|i: int|
            0 <= i < digits.len() ==> '0' <= #[trigger] digits[i] <= '9',
        digits.len() > 0 && (forall|i: int|
            0 <= i < digits.len() ==> '0' <= #[trigger] digits[i] <= '9') ==> unsigned_value(
            digits,
        ) == if digits_value(digits) <= 0xffff_ffff_ffff_ffff {
            Some(digits_value(digits) as u64)
        } else {
            None
        },
{
    assert(digits.push(last).drop_last() =~= digits);
    assert((seq!['+'] + digits).skip(1) =~= digits);
    assert(seq!['+'].skip(1).len() == 0);
    if digits.len() > 0 && (forall|i: int|
        0 <= i < digits.len() ==> '0' <= #[trigger] digits[i] <= '9') {
        assert('0' <= digits[0] <= '9');
        assert(digits[0] != '+');
    }
}

// ---- Defaults ----

/// Unless others are chosen, a service runs eight jobs at once, takes inputs and outputs of 64
/// KiB, waits ten seconds for control calls and final writes and thirty for results and shutdown,
/// allows triggers five seconds of lateness, and keeps a week, a hundred runs of a job, ten
/// thousand runs and 256 MiB of history.
pub proof fn defaults_are_fixed()
    ensures
        default_limits().concurrency == 8,
        default_limits().input_bytes == 64 * 1024,
        default_limits().output_bytes == 64 * 1024,
        default_limits().control_timeout.nanos == 10 * 1_000_000_000,
        default_limits().finalization_timeout.nanos == 10 * 1_000_000_000,
        default_limits().wait_timeout.nanos == 30 * 1_000_000_000,
        default_limits().shutdown_timeout.nanos == 30 * 1_000_000_000,
        default_limits().lateness.nanos == 5 * 1_000_000_000,
        default_limits().retention == default_retention(),
        default_retention().age.nanos == 7 * 24 * 60 * 60 * 1_000_000_000,
        default_retention().per_job == 100,
        default_retention().runs == 10_000,
        default_retention().bytes == 256 * 1024 * 1024,
{
}

// ---- Errors ----

/// What an error says: its kind, and what it is about, named in full.
pub proof fn errors_say_what_they_are_about(reason: Seq<char>, id: u128)
    ensures
        error_text(ErrorView::Invalid(reason)) == "invalid definition or input: "@ + reason,
        error_text(ErrorView::NotFound) == "not found"@,
        error_text(ErrorView::Busy) == "job or global capacity busy"@,
        error_text(ErrorView::ShuttingDown) == "service is shutting down"@,
        error_text(ErrorView::Journal(reason)) == "journal unavailable: "@ + reason,
        error_text(ErrorView::AlreadySubmitted(id)) == "run already submitted: "@ + hyphenated(id),
        error_text(ErrorView::AdmissionUnknown(id)) == "admission result unknown; query "@
            + hyphenated(id) + ", do not resubmit"@,
        error_text(ErrorView::AdmissionFailed(reason)) == "admission failed: "@ + reason,
        error_text(ErrorView::WaitTimedOut(id)) == "wait timed out for "@ + hyphenated(id),
        error_text(ErrorView::TimedOut) == "control call timed out"@,
        error_text(ErrorView::Stopped) == "service stopped"@,
        error_text(ErrorView::OutputUnavailable(reason)) == "output unavailable: "@ + reason,
        error_text(ErrorView::StaleRevision) == "stale scope revision"@,
{
}

// ---- Jobs ----

/// A job that is defined by its key alone is named like it, belongs to the application in the
/// default scope, has the first version, runs on request only, and cannot be cancelled.
pub proof fn manual_job_is_plain(key: Seq<char>)
    ensures
        ({
            let definition = manual_definition(key);
            &&& definition.key == key
            &&& definition.name == key
            &&& definition.scope == "default"@
            &&& definition.managed_by == "application"@
            &&& definition.version == 1
            &&& definition.schedule is Manual
            &&& definition.cancellation == Cancellation::Unsupported
        }),
{
}

/// A job is valid exactly if its key has 1 to 512 bytes, its scope 1 to 128, its name up to 1024
/// and its owner up to 512, its input is within the limit and accepted by its decoder, and its
/// schedule is valid; the first of these that fails is the reason.
pub proof fn job_is_valid_exactly_if(
    job: JobView,
    limit: nat,
    decoding: DecodingView,
    now: Timestamp,
)
    ensures
        job_fault(job, limit, decoding, now) == if !({
            &&& 1 <= encode_utf8(job.definition.key).len() <= 512
            &&& 1 <= encode_utf8(job.definition.scope).len() <= 128
            &&& encode_utf8(job.definition.name).len() <= 1024
            &&& encode_utf8(job.definition.managed_by).len() <= 512
        }) {
            Some(ErrorView::Invalid("invalid job identity/metadata"@))
        } else if encode_utf8(job.input).len() > limit {
            Some(ErrorView::Invalid("input limit"@))
        } else {
            match decoding {
                DecodingView::Accepted => schedule_fault(job.definition.schedule, now),
                DecodingView::Refused(reason) => Some(ErrorView::Invalid(reason)),
                DecodingView::Panicked => Some(ErrorView::Invalid("input decoder panicked"@)),
            }
        },
{
}

/// A default input is taken if it could be encoded and has no more than 64 KiB; otherwise the
/// reason is what the encoding says, or that it is too large.
pub proof fn default_input_is_bounded(encoded: Result<String, Error>)
    ensures
        default_input_fault(encoded) == match encoded {
            Ok(input) => if encode_utf8(input@).len() <= 64 * 1024 {
                None
            } else {
                Some(ErrorView::Invalid("output unavailable: "@ + "size_limit"@))
            },
            Err(e) => Some(ErrorView::Invalid(error_text(e@))),
        },
{
}

/// What becomes of a handler's end: a value that it returned is a success, with the encoded value
/// as output or the reason why there is none; an error is a failure with its code and message,
/// unless it acknowledges a cancellation; and a panic is a failure. Every such result is durable
/// until shown otherwise.
pub proof fn endings_become_completions(ending: Ending)
    ensures
        ending_completion(ending) == match ending {
            Ending::Returned(Ok(text)) => CompletionView {
                outcome: OutcomeView::Succeeded,
                output: OutputView::Json(text@),
                journal: JournalView::Durable,
            },
            Ending::Returned(Err(Error::OutputUnavailable(code))) => CompletionView {
                outcome: OutcomeView::Succeeded,
                output: OutputView::Unavailable(code@),
                journal: JournalView::Durable,
            },
            Ending::Returned(Err(_)) => CompletionView {
                outcome: OutcomeView::Succeeded,
                output: OutputView::Unavailable("encoding_failed"@),
                journal: JournalView::Durable,
            },
            Ending::Failed(error) => CompletionView {
                outcome: if error.code@ == "cancelled"@ {
                    OutcomeView::Cancelled
                } else {
                    OutcomeView::Failed(
                        JobErrorView { code: error.code@, message: error.message@ },
                    )
                },
                output: OutputView::Nothing,
                journal: JournalView::Durable,
            },
            Ending::Panicked => CompletionView {
                outcome: OutcomeView::Failed(
                    JobErrorView { code: "panicked"@, message: "Handler panicked"@ },
                ),
                output: OutputView::Nothing,
                journal: JournalView::Durable,
            },
        },
{
}

/// A completion that is made of an outcome alone has no output and is durable.
pub proof fn bare_completion_has_no_output(outcome: OutcomeView)
    ensures
        bare_completion(outcome).outcome == outcome,
        bare_completion(outcome).output is Nothing,
        bare_completion(outcome).journal is Durable,
{
}

/// A chunk is added to a bounded sink whole if it still fits, and else not at all. An encoding
/// that was not written whole failed for its size if a chunk was refused, and else by itself.
pub proof fn sink_takes_whole_chunks(before: Seq<u8>, chunk: Seq<u8>, limit: nat)
    ensures
        before.len() + chunk.len() <= limit ==> extended(before, chunk, limit) == before + chunk,
        before.len() + chunk.len() > limit ==> extended(before, chunk, limit) == before,
        encoding_fault(true, Encoded::Complete) is None,
        encoding_fault(false, Encoded::Complete) is None,
        encoding_fault(true, Encoded::Failed) == Some(
            ErrorView::OutputUnavailable("size_limit"@),
        ),
        encoding_fault(false, Encoded::Failed) == Some(
            ErrorView::OutputUnavailable("encoding_failed"@),
        ),
{
}

// ---- Clients ----

/// A waiter is told the completion that the service shows, and only where it shows no record the
/// one that the journal keeps. A record without a completion means that the wait is over in vain,
/// and no record at all that the run is unknown.
pub proof fn waiter_hears_the_service_first(
    id: u128,
    shown: RunRecordView,
    kept: RunRecordView,
    other: Option<RunRecordView>,
)
    ensures
        shown.state matches RunStateView::Finished(completion) ==> wait_answer(
            id,
            Some(shown),
            other,
        ) == Ok::<CompletionView, ErrorView>(completion),
        !(shown.state is Finished) ==> wait_answer(id, Some(shown), other) == Err::<
            CompletionView,
            ErrorView,
        >(ErrorView::WaitTimedOut(id)),
        kept.state matches RunStateView::Finished(completion) ==> wait_answer(id, None, Some(kept))
            == Ok::<CompletionView, ErrorView>(completion),
        !(kept.state is Finished) ==> wait_answer(id, None, Some(kept)) == Err::<
            CompletionView,
            ErrorView,
        >(ErrorView::WaitTimedOut(id)),
        wait_answer(id, None, None) == Err::<CompletionView, ErrorView>(ErrorView::NotFound),
{
}

// ---- Maintenance ----

/// An idle maintenance applies retention when it begins, tells once that it is late, ends once
/// retention was applied, and after a failure tells of a fault, pauses, and tries again with twice
/// the pause, up to thirty seconds. Nothing else makes it act.
pub proof fn maintenance_tries_until_done(late: bool, pause: u64, event: UpkeepEvent)
    requires
        pause <= 30,
    ensures
        kept_up(Upkeep::Waiting, UpkeepEvent::Begun) == (
            Upkeep::Pruning { late: false, pause: 1 },
            seq![UpkeepAction::Prune],
        ),
        kept_up(Upkeep::Pruning { late: false, pause }, UpkeepEvent::Timeout) == (
            Upkeep::Pruning { late: true, pause },
            seq![UpkeepAction::Fault],
        ),
        kept_up(Upkeep::Pruning { late: true, pause }, UpkeepEvent::Timeout) == (
            Upkeep::Pruning { late: true, pause },
            Seq::<UpkeepAction>::empty(),
        ),
        kept_up(Upkeep::Pruning { late, pause }, UpkeepEvent::Pruned(true)) == (
            Upkeep::Ended,
            seq![UpkeepAction::Done],
        ),
        kept_up(Upkeep::Pruning { late, pause }, UpkeepEvent::Pruned(false)) == (
            Upkeep::Pausing { pause },
            seq![UpkeepAction::Fault, UpkeepAction::Pause(pause)],
        ),
        kept_up(Upkeep::Pausing { pause }, UpkeepEvent::Woken) == (
            Upkeep::Pruning {
                late: false,
                pause: if pause < 15 {
                    (2 * pause) as u64
                } else {
                    30u64
                },
            },
            seq![UpkeepAction::Prune],
        ),
        kept_up(Upkeep::Ended, event) == (Upkeep::Ended, Seq::<UpkeepAction>::empty()),
        !(event is Begun) ==> kept_up(Upkeep::Waiting, event) == (
            Upkeep::Waiting,
            Seq::<UpkeepAction>::empty(),
        ),
        !(event is Timeout || event is Pruned) ==> kept_up(Upkeep::Pruning { late, pause }, event)
            == (Upkeep::Pruning { late, pause }, Seq::<UpkeepAction>::empty()),
        !(event is Woken) ==> kept_up(Upkeep::Pausing { pause }, event) == (
            Upkeep::Pausing { pause },
            Seq::<UpkeepAction>::empty(),
        ),
{
}

/// A pause after a failure is twice the one before, and thirty seconds at most.
pub proof fn pauses_double(pause: u64)
    requires
        pause <= 30,
    ensures
        longer_pause(pause) == if 2 * pause < 30 {
            2 * pause
        } else {
            30
        },
{
}

// ---- Wire shapes ----

/// Whether a text is read as a number.
pub open spec fn reads(text: String, value: u64) -> bool {
    unsigned_value(text@) == Some(value)
}

/// A record on the wire: its identifier in the canonical form, its counters as decimal text that
/// reads back, its trigger by name, its times in the form of RFC 3339, each in its own field.
pub proof fn run_shape_says_the_record(dto: RunDto, record: RunRecordView)
    requires
        run_stands(dto, record),
    ensures
        dto.id@ == hyphenated(record.id),
        spells(dto.id@, record.id),
        dto.job@ == record.job,
        reads(dto.definition_version, record.definition_version),
        reads(dto.admission_sequence, record.admission_sequence),
        reads(dto.last_log_sequence, record.last_log_sequence),
        reads(dto.dropped_log_count, record.dropped_log_count),
        dto.trigger@ == match record.trigger {
            Trigger::Manual => "manual"@,
            Trigger::Once => "once"@,
            Trigger::Interval => "interval"@,
            Trigger::Cron => "cron"@,
            Trigger::StartupCatchUp => "startup_catch_up"@,
        },
        dto.scheduled_at is Some <==> record.scheduled_at is Some,
        record.scheduled_at matches Some(at) ==> (dto.scheduled_at->0)@ == rfc3339(
            at.seconds(),
            at.subsecond(),
        ),
        dto.admitted_at@ == rfc3339(
            record.admitted_at.seconds(),
            record.admitted_at.subsecond(),
        ),
        dto.finished_at is Some <==> record.finished_at is Some,
        record.finished_at matches Some(at) ==> (dto.finished_at->0)@ == rfc3339(
            at.seconds(),
            at.subsecond(),
        ),
        match record.state {
            RunStateView::Admitted => dto.state is Admitted,
            RunStateView::Running => dto.state is Running,
            RunStateView::Cancelling => dto.state is Cancelling,
            RunStateView::Finalizing => dto.state is Finalizing,
            RunStateView::Finished(done) => dto.state matches RunStateDto::Finished { completion }
                && completion_stands(completion, done),
        },
{
    decimal_round_trip(record.definition_version);
    decimal_round_trip(record.admission_sequence);
    decimal_round_trip(record.last_log_sequence);
    decimal_round_trip(record.dropped_log_count);
    crate::ids::text_spells_its_id(record.id, record.id);
}

/// A completion on the wire says the same outcome, with the code and the message of a failure, the
/// same output and the same state of the journal.
pub proof fn completion_shape_says_the_completion(dto: CompletionDto, completion: CompletionView)
    requires
        completion_stands(dto, completion),
    ensures
        match dto.outcome {
            OutcomeDto::Succeeded => completion.outcome is Succeeded,
            OutcomeDto::Failed { code, message } => completion.outcome == OutcomeView::Failed(
                JobErrorView { code: code@, message: message@ },
            ),
            OutcomeDto::Cancelled => completion.outcome is Cancelled,
            OutcomeDto::Interrupted => completion.outcome is Interrupted,
            OutcomeDto::Skipped => completion.outcome is Skipped,
        },
        match dto.output {
            OutputDto::JsonText { value } => completion.output == OutputView::Json(value@),
            OutputDto::Unavailable { code } => completion.output == OutputView::Unavailable(code@),
            OutputDto::Nothing => completion.output is Nothing,
        },
        match dto.journal {
            JournalDto::Durable => completion.journal is Durable,
            JournalDto::Degraded { code } => completion.journal == JournalView::Degraded(code@),
        },
{
}

/// A log on the wire says the same run, number, time, level, target and fields.
pub proof fn log_shape_says_the_log(dto: LogDto, log: RunLogView)
    requires
        log_stands(dto, log),
    ensures
        dto.run_id@ == hyphenated(log.run_id),
        reads(dto.sequence, log.sequence),
        dto.time@ == rfc3339(log.time.seconds(), log.time.subsecond()),
        dto.level@ == log.level,
        dto.target@ == log.target,
        dto.fields.entries() == log.fields,
{
    decimal_round_trip(log.sequence);
}

/// A page on the wire has a shape for every entry, in order, and a cursor exactly if the page has
/// one, which reads back as that cursor.
pub proof fn page_shapes_say_the_pages(
    runs: RunPageDto,
    run_page: Page<RunRecord, RunCursor>,
    logs: LogPageDto,
    log_page: Page<RunLog, u64>,
    i: int,
)
    requires
        run_page_stands(runs, run_page),
        log_page_stands(logs, log_page),
    ensures
        runs.items@.len() == run_page.items@.len(),
        0 <= i < runs.items@.len() ==> run_stands(runs.items@[i], run_page.items@[i]@),
        runs.next is Some <==> run_page.next is Some,
        run_page.next matches Some(cursor) ==> reads((runs.next->0).sequence, cursor.sequence)
            && (runs.next->0).id@ == hyphenated(cursor.id@),
        logs.items@.len() == log_page.items@.len(),
        0 <= i < logs.items@.len() ==> log_stands(logs.items@[i], log_page.items@[i]@),
        logs.next is Some <==> log_page.next is Some,
        log_page.next matches Some(sequence) ==> reads(logs.next->0, sequence),
{
    if run_page.next is Some {
        decimal_round_trip((run_page.next->0).sequence);
    }
    if log_page.next is Some {
        decimal_round_trip(log_page.next->0);
    }
}

/// A cursor is read from the wire exactly if its sequence reads as a number and its identifier
/// spells one; the sequence is looked at first.
pub proof fn cursor_is_read_or_refused(dto: RunCursorDto, read: Result<RunCursor, Error>, id: u128)
    requires
        cursor_reads(dto, read),
    ensures
        read matches Ok(cursor) ==> reads(dto.sequence, cursor.sequence) && spells(
            dto.id@,
            cursor.id@,
        ),
        unsigned_value(dto.sequence@) is None ==> (read matches Err(e) && e@
            == ErrorView::Invalid("invalid cursor sequence"@)),
        unsigned_value(dto.sequence@) is Some && spells(dto.id@, id) ==> read is Ok,
        unsigned_value(dto.sequence@) is Some && read is Err ==> (read matches Err(e) && e@
            == ErrorView::Invalid("invalid cursor ID"@)) && !spells(dto.id@, id),
{
}

// ---- Equality ----

/// Two values are equal exactly if they hold the same, field by field.
pub proof fn equal_means_the_same(
    a: RunRecord,
    b: RunRecord,
    x: JobDefinition,
    y: JobDefinition,
    s: Schedule,
    t: Schedule,
)
    ensures
        a.eq_spec(&b) <==> {
            &&& a.id == b.id
            &&& a.job@ == b.job@
            &&& a.definition_version == b.definition_version
            &&& a.trigger == b.trigger
            &&& a.scheduled_at == b.scheduled_at
            &&& a.admitted_at == b.admitted_at
            &&& a.admission_sequence == b.admission_sequence
            &&& a.finished_at == b.finished_at
            &&& a.state.eq_spec(&b.state)
            &&& a.last_log_sequence == b.last_log_sequence
            &&& a.dropped_log_count == b.dropped_log_count
        },
        x.eq_spec(&y) <==> {
            &&& x.key@ == y.key@
            &&& x.scope@ == y.scope@
            &&& x.managed_by@ == y.managed_by@
            &&& x.name@ == y.name@
            &&& x.version == y.version
            &&& x.schedule.eq_spec(&y.schedule)
            &&& x.cancellation == y.cancellation
        },
        s.eq_spec(&t) <==> match (s, t) {
            (Schedule::Manual, Schedule::Manual) => true,
            (Schedule::Once { delay_ms: m }, Schedule::Once { delay_ms: n }) => m == n,
            (Schedule::Interval { every_ms: m }, Schedule::Interval { every_ms: n }) => m == n,
            (
                Schedule::Cron { expression: e, timezone: z },
                Schedule::Cron { expression: f, timezone: w },
            ) => e@ == f@ && z@ == w@,
            _ => false,
        },
{
}

/// Two states, completions, outcomes, outputs or failures are equal exactly if they are of the same
/// kind and hold the same.
pub proof fn equal_results_are_the_same(
    a: RunState,
    b: RunState,
    c: Completion,
    d: Completion,
    e: Outcome,
    f: Outcome,
    g: Output,
    h: Output,
    i: JournalState,
    j: JournalState,
    k: JobError,
    l: JobError,
)
    ensures
        a.eq_spec(&b) <==> match (a, b) {
            (RunState::Admitted, RunState::Admitted) => true,
            (RunState::Running, RunState::Running) => true,
            (RunState::Cancelling, RunState::Cancelling) => true,
            (RunState::Finalizing, RunState::Finalizing) => true,
            (RunState::Finished(x), RunState::Finished(y)) => x.eq_spec(&y),
            _ => false,
        },
        c.eq_spec(&d) <==> c.outcome.eq_spec(&d.outcome) && c.output.eq_spec(&d.output)
            && c.journal.eq_spec(&d.journal),
        e.eq_spec(&f) <==> match (e, f) {
            (Outcome::Succeeded, Outcome::Succeeded) => true,
            (Outcome::Failed(x), Outcome::Failed(y)) => x.eq_spec(&y),
            (Outcome::Cancelled, Outcome::Cancelled) => true,
            (Outcome::Interrupted, Outcome::Interrupted) => true,
            (Outcome::Skipped, Outcome::Skipped) => true,
            _ => false,
        },
        g.eq_spec(&h) <==> match (g, h) {
            (Output::Json(x), Output::Json(y)) => x@ == y@,
            (Output::Unavailable(x), Output::Unavailable(y)) => x@ == y@,
            (Output::Nothing, Output::Nothing) => true,
            _ => false,
        },
        i.eq_spec(&j) <==> match (i, j) {
            (JournalState::Durable, JournalState::Durable) => true,
            (JournalState::Degraded(x), JournalState::Degraded(y)) => x@ == y@,
            _ => false,
        },
        k.eq_spec(&l) <==> k.code@ == l.code@ && k.message@ == l.message@,
{
}

} // verus!
