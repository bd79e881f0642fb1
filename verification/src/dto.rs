//! Finite wire shapes for adapters. JSON output is bounded text, never a recursive dynamic schema.
//! Identifiers, revisions and counters are decimal or hexadecimal text, so that no reader loses
//! digits.

use vstd::prelude::*;
use vstd::std_specs::convert::{FromSpecImpl, TryFromSpecImpl};
use crate::ids::{hyphenated, spells, text_spells_its_id, RunId};
use crate::model::{
    Completion, CompletionView, Error, ErrorView, JournalState, JournalView, Outcome,
    OutcomeView, Output, OutputView, Page, RunCursor, RunLog, RunLogView, RunRecord,
    RunRecordView, RunState, RunStateView, Trigger,
};
use crate::sorted::SortedMap;
use crate::text::{decimal, decimal_round_trip, decimal_text, parse_unsigned, unsigned_value};
use crate::time::{instant_text, to_rfc3339, Timestamp};

verus! {

#[derive(Debug)]
pub struct RunDto {
    pub id: String,
    pub job: String,
    pub definition_version: String,
    pub admission_sequence: String,
    pub trigger: String,
    pub scheduled_at: Option<String>,
    pub admitted_at: String,
    pub finished_at: Option<String>,
    pub state: RunStateDto,
    pub last_log_sequence: String,
    pub dropped_log_count: String,
}

#[derive(Debug)]
pub enum RunStateDto {
    Admitted,
    Running,
    Cancelling,
    Finalizing,
    Finished { completion: CompletionDto },
}

#[derive(Debug)]
pub struct CompletionDto {
    pub outcome: OutcomeDto,
    pub output: OutputDto,
    pub journal: JournalDto,
}

#[derive(Debug)]
pub enum OutcomeDto {
    Succeeded,
    Failed { code: String, message: String },
    Cancelled,
    Interrupted,
    Skipped,
}

#[derive(Debug)]
pub enum OutputDto {
    JsonText { value: String },
    Unavailable { code: String },
    Nothing,
}

#[derive(Debug)]
pub enum JournalDto {
    Durable,
    Degraded { code: String },
}

#[derive(Debug)]
pub struct LogDto {
    pub run_id: String,
    pub sequence: String,
    pub time: String,
    pub level: String,
    pub target: String,
    pub fields: SortedMap<String, String>,
}

#[derive(Debug)]
pub struct RunCursorDto {
    pub sequence: String,
    pub id: String,
}

#[derive(Debug)]
pub struct RunPageDto {
    pub items: Vec<RunDto>,
    pub next: Option<RunCursorDto>,
}

#[derive(Debug)]
pub struct LogPageDto {
    pub items: Vec<LogDto>,
    pub next: Option<String>,
}

/// The name of a trigger on the wire.
pub open spec fn trigger_name(trigger: Trigger) -> Seq<char> {
    match trigger {
        Trigger::Manual => "manual"@,
        Trigger::Once => "once"@,
        Trigger::Interval => "interval"@,
        Trigger::Cron => "cron"@,
        Trigger::StartupCatchUp => "startup_catch_up"@,
    }
}

/// Whether a wire shape stands for an outcome.
pub open spec fn outcome_stands(dto: OutcomeDto, outcome: OutcomeView) -> bool {
    match outcome {
        OutcomeView::Succeeded => dto is Succeeded,
        OutcomeView::Failed(e) => dto matches OutcomeDto::Failed { code, message } && code@
            == e.code && message@ == e.message,
        OutcomeView::Cancelled => dto is Cancelled,
        OutcomeView::Interrupted => dto is Interrupted,
        OutcomeView::Skipped => dto is Skipped,
    }
}

/// Whether a wire shape stands for an output.
pub open spec fn output_stands(dto: OutputDto, output: OutputView) -> bool {
    match output {
        OutputView::Json(text) => dto matches OutputDto::JsonText { value } && value@ == text,
        OutputView::Unavailable(reason) => dto matches OutputDto::Unavailable { code } && code@
            == reason,
        OutputView::Nothing => dto is Nothing,
    }
}

/// Whether a wire shape stands for the state of the journal.
pub open spec fn journal_stands(dto: JournalDto, journal: JournalView) -> bool {
    match journal {
        JournalView::Durable => dto is Durable,
        JournalView::Degraded(reason) => dto matches JournalDto::Degraded { code } && code@
            == reason,
    }
}

/// Whether a wire shape stands for a completion.
pub open spec fn completion_stands(dto: CompletionDto, completion: CompletionView) -> bool {
    &&& outcome_stands(dto.outcome, completion.outcome)
    &&& output_stands(dto.output, completion.output)
    &&& journal_stands(dto.journal, completion.journal)
}

/// Whether a wire shape stands for the state of a run.
pub open spec fn state_stands(dto: RunStateDto, state: RunStateView) -> bool {
    match state {
        RunStateView::Admitted => dto is Admitted,
        RunStateView::Running => dto is Running,
        RunStateView::Cancelling => dto is Cancelling,
        RunStateView::Finalizing => dto is Finalizing,
        RunStateView::Finished(done) => dto matches RunStateDto::Finished { completion }
            && completion_stands(completion, done),
    }
}

/// Whether an optional text stands for an optional instant.
pub open spec fn time_stands(text: Option<String>, at: Option<Timestamp>) -> bool {
    match at {
        Some(t) => text matches Some(written) && written@ == instant_text(t),
        None => text is None,
    }
}

/// Whether a wire shape stands for a record.
pub open spec fn run_stands(dto: RunDto, record: RunRecordView) -> bool {
    &&& dto.id@ == hyphenated(record.id)
    &&& dto.job@ == record.job
    &&& dto.definition_version@ == decimal(record.definition_version as nat)
    &&& dto.admission_sequence@ == decimal(record.admission_sequence as nat)
    &&& dto.trigger@ == trigger_name(record.trigger)
    &&& time_stands(dto.scheduled_at, record.scheduled_at)
    &&& dto.admitted_at@ == instant_text(record.admitted_at)
    &&& time_stands(dto.finished_at, record.finished_at)
    &&& state_stands(dto.state, record.state)
    &&& dto.last_log_sequence@ == decimal(record.last_log_sequence as nat)
    &&& dto.dropped_log_count@ == decimal(record.dropped_log_count as nat)
}

/// Whether a wire shape stands for a log.
pub open spec fn log_stands(dto: LogDto, log: RunLogView) -> bool {
    &&& dto.run_id@ == hyphenated(log.run_id)
    &&& dto.sequence@ == decimal(log.sequence as nat)
    &&& dto.time@ == instant_text(log.time)
    &&& dto.level@ == log.level
    &&& dto.target@ == log.target
    &&& dto.fields.entries() == log.fields
}

/// Whether a wire shape stands for a cursor.
pub open spec fn cursor_stands(dto: RunCursorDto, cursor: RunCursor) -> bool {
    dto.sequence@ == decimal(cursor.sequence as nat) && dto.id@ == hyphenated(cursor.id@)
}

impl From<Completion> for CompletionDto {
    fn from(c: Completion) -> (dto: Self)
        ensures
            completion_stands(dto, c@),
    {
        CompletionDto {
            outcome: match c.outcome {
                Outcome::Succeeded => OutcomeDto::Succeeded,
                Outcome::Failed(e) => OutcomeDto::Failed { code: e.code, message: e.message },
                Outcome::Cancelled => OutcomeDto::Cancelled,
                Outcome::Interrupted => OutcomeDto::Interrupted,
                Outcome::Skipped => OutcomeDto::Skipped,
            },
            output: match c.output {
                Output::Json(value) => OutputDto::JsonText { value },
                Output::Unavailable(code) => OutputDto::Unavailable { code },
                Output::Nothing => OutputDto::Nothing,
            },
            journal: match c.journal {
                JournalState::Durable => JournalDto::Durable,
                JournalState::Degraded(code) => JournalDto::Degraded { code },
            },
        }
    }
}

impl FromSpecImpl<Completion> for CompletionDto {
    open spec fn obeys_from_spec() -> bool {
        false
    }

    open spec fn from_spec(c: Completion) -> Self {
        arbitrary()
    }
}

/// The text of an optional instant.
fn time_text(at: Option<Timestamp>) -> (text: Option<String>)
    requires
        at matches Some(t) ==> t.representable(),
    ensures
        time_stands(text, at),
{
    match at {
        Some(t) => Some(to_rfc3339(t)),
        None => None,
    }
}

impl RunDto {
    /// The wire shape of a record.
    pub fn from_record(r: RunRecord) -> (dto: Self)
        requires
            r@.dated(),
        ensures
            run_stands(dto, r@),
    {
        let state = match r.state {
            RunState::Admitted => RunStateDto::Admitted,
            RunState::Running => RunStateDto::Running,
            RunState::Cancelling => RunStateDto::Cancelling,
            RunState::Finalizing => RunStateDto::Finalizing,
            RunState::Finished(c) => RunStateDto::Finished { completion: CompletionDto::from(c) },
        };
        let trigger = match r.trigger {
            Trigger::Manual => "manual".to_string(),
            Trigger::Once => "once".to_string(),
            Trigger::Interval => "interval".to_string(),
            Trigger::Cron => "cron".to_string(),
            Trigger::StartupCatchUp => "startup_catch_up".to_string(),
        };
        RunDto {
            id: r.id.text(),
            job: r.job,
            definition_version: decimal_text(r.definition_version),
            admission_sequence: decimal_text(r.admission_sequence),
            trigger,
            scheduled_at: time_text(r.scheduled_at),
            admitted_at: to_rfc3339(r.admitted_at),
            finished_at: time_text(r.finished_at),
            state,
            last_log_sequence: decimal_text(r.last_log_sequence),
            dropped_log_count: decimal_text(r.dropped_log_count),
        }
    }
}

impl LogDto {
    /// The wire shape of a log.
    pub fn from_log(l: RunLog) -> (dto: Self)
        requires
            l.time.representable(),
        ensures
            log_stands(dto, l@),
            dto.fields == l.fields,
    {
        LogDto {
            run_id: l.run_id.text(),
            sequence: decimal_text(l.sequence),
            time: to_rfc3339(l.time),
            level: l.level,
            target: l.target,
            fields: l.fields,
        }
    }
}

impl From<RunCursor> for RunCursorDto {
    fn from(c: RunCursor) -> (dto: Self)
        ensures
            cursor_stands(dto, c),
    {
        RunCursorDto { sequence: decimal_text(c.sequence), id: c.id.text() }
    }
}

impl FromSpecImpl<RunCursor> for RunCursorDto {
    open spec fn obeys_from_spec() -> bool {
        false
    }

    open spec fn from_spec(c: RunCursor) -> Self {
        arbitrary()
    }
}

/// Whether a reading of a cursor's wire shape is right: the sequence must be an unsigned decimal
/// integer, and then the identifier one in any of its spellings.
pub open spec fn cursor_reads(dto: RunCursorDto, read: Result<RunCursor, Error>) -> bool {
    match unsigned_value(dto.sequence@) {
        None => read matches Err(e) && e@ == ErrorView::Invalid("invalid cursor sequence"@),
        Some(sequence) => match read {
            Ok(cursor) => cursor.sequence == sequence && spells(dto.id@, cursor.id@),
            Err(e) => e@ == ErrorView::Invalid("invalid cursor ID"@) && forall|b: u128|
                !spells(dto.id@, b),
        },
    }
}

impl TryFrom<RunCursorDto> for RunCursor {
    type Error = Error;

    fn try_from(c: RunCursorDto) -> (read: Result<Self, Error>)
        ensures
            cursor_reads(c, read),
    {
        let sequence: u64 = match parse_unsigned(c.sequence.as_str()) {
            Some(value) => value,
            None => {
                return Err(Error::Invalid("invalid cursor sequence".to_string()));
            },
        };
        match RunId::parse(c.id.as_str()) {
            Some(id) => Ok(RunCursor { sequence, id }),
            None => Err(Error::Invalid("invalid cursor ID".to_string())),
        }
    }
}

impl TryFromSpecImpl<RunCursorDto> for RunCursor {
    open spec fn obeys_try_from_spec() -> bool {
        false
    }

    open spec fn try_from_spec(c: RunCursorDto) -> Result<Self, Error> {
        arbitrary()
    }
}

/// Whether a wire shape stands for a page of runs.
pub open spec fn run_page_stands(dto: RunPageDto, page: Page<RunRecord, RunCursor>) -> bool {
    &&& dto.items@.len() == page.items@.len()
    &&& forall|i: int|
        0 <= i < dto.items@.len() ==> run_stands(#[trigger] dto.items@[i], page.items@[i]@)
    &&& match page.next {
        Some(cursor) => dto.next matches Some(next) && cursor_stands(next, cursor),
        None => dto.next is None,
    }
}

/// Whether a wire shape stands for a page of logs.
pub open spec fn log_page_stands(dto: LogPageDto, page: Page<RunLog, u64>) -> bool {
    &&& dto.items@.len() == page.items@.len()
    &&& forall|i: int|
        0 <= i < dto.items@.len() ==> log_stands(#[trigger] dto.items@[i], page.items@[i]@)
    &&& match page.next {
        Some(sequence) => dto.next matches Some(next) && next@ == decimal(sequence as nat),
        None => dto.next is None,
    }
}

impl RunPageDto {
    /// The wire shape of a page of runs.
    pub fn from_page(p: Page<RunRecord, RunCursor>) -> (dto: Self)
        requires
            forall|i: int| 0 <= i < p.items@.len() ==> (#[trigger] p.items@[i])@.dated(),
        ensures
            run_page_stands(dto, p),
    {
        let mut items: Vec<RunDto> = Vec::new();
        let mut i: usize = 0;
        while i < p.items.len()
            invariant
                i <= p.items@.len(),
                items@.len() == i,
                forall|j: int| 0 <= j < p.items@.len() ==> (#[trigger] p.items@[j])@.dated(),
                forall|j: int| 0 <= j < i ==> run_stands(#[trigger] items@[j], p.items@[j]@),
            decreases p.items@.len() - i,
        {
            items.push(RunDto::from_record(p.items[i].clone()));
            i = i + 1;
        }
        let next = match p.next {
            Some(cursor) => Some(RunCursorDto::from(cursor)),
            None => None,
        };
        RunPageDto { items, next }
    }
}

impl LogPageDto {
    /// The wire shape of a page of logs.
    pub fn from_page(p: Page<RunLog, u64>) -> (dto: Self)
        requires
            forall|i: int| 0 <= i < p.items@.len() ==> (#[trigger] p.items@[i]).time.representable(),
        ensures
            log_page_stands(dto, p),
    {
        let mut items: Vec<LogDto> = Vec::new();
        let mut i: usize = 0;
        while i < p.items.len()
            invariant
                i <= p.items@.len(),
                items@.len() == i,
                forall|j: int|
                    0 <= j < p.items@.len() ==> (#[trigger] p.items@[j]).time.representable(),
                forall|j: int| 0 <= j < i ==> log_stands(#[trigger] items@[j], p.items@[j]@),
            decreases p.items@.len() - i,
        {
            let log = p.items[i].clone();
            assert(log.time == log@.time && log@.time == p.items@[i as int].time);
            items.push(LogDto::from_log(log));
            i = i + 1;
        }
        let next = match p.next {
            Some(sequence) => Some(decimal_text(sequence)),
            None => None,
        };
        LogPageDto { items, next }
    }
}

/// A cursor survives the wire: whatever reads its wire shape gets the cursor back, whatever its
/// sequence.
pub proof fn cursor_round_trip(cursor: RunCursor, dto: RunCursorDto, read: Result<RunCursor, Error>)
    requires
        cursor_stands(dto, cursor),
        cursor_reads(dto, read),
    ensures
        read == Ok::<RunCursor, Error>(cursor),
{
    decimal_round_trip(cursor.sequence);
    text_spells_its_id(cursor.id@, cursor.id@);
    match read {
        Ok(found) => {
            text_spells_its_id(cursor.id@, found.id@);
        },
        Err(_) => {},
    }
}

} // verus!
