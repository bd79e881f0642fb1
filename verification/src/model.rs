//! Runs, their completions, limits and errors.

use vstd::prelude::*;
use vstd::std_specs::cmp::PartialEqSpecImpl;
use crate::ids::{hyphenated, RunId};
use crate::sorted::SortedMap;
use crate::text::same_text;
use crate::time::{Span, Timestamp};

verus! {

/// The stable name of a job.
pub type JobKey = String;

/// What started a run.
#[derive(Debug, Clone, Copy, PartialEq, Eq, Hash, Structural)]
pub enum Trigger {
    Manual,
    Once,
    Interval,
    Cron,
    StartupCatchUp,
}

/// Whether a handler acts on cancellation requests.
#[derive(Debug, Clone, Copy, PartialEq, Eq, Hash, Structural)]
pub enum Cancellation {
    Unsupported,
    Cooperative,
}

impl Default for Cancellation {
    fn default() -> (value: Self)
        ensures
            value == Cancellation::Unsupported,
    {
        Cancellation::Unsupported
    }
}

/// A failure that a handler reports: a stable code and a safe message.
#[derive(Debug)]
pub struct JobError {
    pub code: String,
    pub message: String,
}

pub struct JobErrorView {
    pub code: Seq<char>,
    pub message: Seq<char>,
}

impl View for JobError {
    type V = JobErrorView;

    open spec fn view(&self) -> JobErrorView {
        JobErrorView { code: self.code@, message: self.message@ }
    }
}

impl Clone for JobError {
    fn clone(&self) -> (copy: Self)
        ensures
            copy == *self,
    {
        JobError { code: self.code.clone(), message: self.message.clone() }
    }
}

impl PartialEq for JobError {
    fn eq(&self, other: &Self) -> (same: bool) {
        same_text(self.code.as_str(), other.code.as_str()) && same_text(
            self.message.as_str(),
            other.message.as_str(),
        )
    }
}

impl PartialEqSpecImpl for JobError {
    open spec fn obeys_eq_spec() -> bool {
        true
    }

    open spec fn eq_spec(&self, other: &Self) -> bool {
        self@ == other@
    }
}

impl Eq for JobError {

}

impl JobError {
    pub fn new(code: &str, message: &str) -> (error: Self)
        ensures
            error@ == (JobErrorView { code: code@, message: message@ }),
    {
        JobError { code: code.to_string(), message: message.to_string() }
    }

    /// The error with which a handler acknowledges a cancellation.
    pub fn cancelled() -> (error: Self)
        ensures
            error@ == (JobErrorView {
                code: "cancelled"@,
                message: "Work acknowledged cancellation"@,
            }),
    {
        Self::new("cancelled", "Work acknowledged cancellation")
    }

    /// The error as one line: its code, a colon and its message.
    pub fn text(&self) -> (text: String)
        ensures
            text@ == self.code@ + ": "@ + self.message@,
    {
        let mut text = self.code.clone();
        text.append(": ");
        text.append(self.message.as_str());
        text
    }
}

/// How the work of a run ended.
#[derive(Debug)]
pub enum Outcome {
    Succeeded,
    Failed(JobError),
    Cancelled,
    Interrupted,
    Skipped,
}

pub enum OutcomeView {
    Succeeded,
    Failed(JobErrorView),
    Cancelled,
    Interrupted,
    Skipped,
}

impl View for Outcome {
    type V = OutcomeView;

    open spec fn view(&self) -> OutcomeView {
        match self {
            Outcome::Succeeded => OutcomeView::Succeeded,
            Outcome::Failed(error) => OutcomeView::Failed(error@),
            Outcome::Cancelled => OutcomeView::Cancelled,
            Outcome::Interrupted => OutcomeView::Interrupted,
            Outcome::Skipped => OutcomeView::Skipped,
        }
    }
}

impl Clone for Outcome {
    fn clone(&self) -> (copy: Self)
        ensures
            copy == *self,
    {
        match self {
            Outcome::Succeeded => Outcome::Succeeded,
            Outcome::Failed(error) => Outcome::Failed(error.clone()),
            Outcome::Cancelled => Outcome::Cancelled,
            Outcome::Interrupted => Outcome::Interrupted,
            Outcome::Skipped => Outcome::Skipped,
        }
    }
}

impl PartialEq for Outcome {
    fn eq(&self, other: &Self) -> (same: bool) {
        match (self, other) {
            (Outcome::Succeeded, Outcome::Succeeded) => true,
            (Outcome::Failed(a), Outcome::Failed(b)) => a == b,
            (Outcome::Cancelled, Outcome::Cancelled) => true,
            (Outcome::Interrupted, Outcome::Interrupted) => true,
            (Outcome::Skipped, Outcome::Skipped) => true,
            _ => false,
        }
    }
}

impl PartialEqSpecImpl for Outcome {
    open spec fn obeys_eq_spec() -> bool {
        true
    }

    open spec fn eq_spec(&self, other: &Self) -> bool {
        self@ == other@
    }
}

impl Eq for Outcome {

}

/// What the handler returned, as far as it could be kept.
#[derive(Debug)]
pub enum Output {
    Json(String),
    Unavailable(String),
    Nothing,
}

pub enum OutputView {
    Json(Seq<char>),
    Unavailable(Seq<char>),
    Nothing,
}

impl View for Output {
    type V = OutputView;

    open spec fn view(&self) -> OutputView {
        match self {
            Output::Json(text) => OutputView::Json(text@),
            Output::Unavailable(code) => OutputView::Unavailable(code@),
            Output::Nothing => OutputView::Nothing,
        }
    }
}

impl Clone for Output {
    fn clone(&self) -> (copy: Self)
        ensures
            copy == *self,
    {
        match self {
            Output::Json(text) => Output::Json(text.clone()),
            Output::Unavailable(code) => Output::Unavailable(code.clone()),
            Output::Nothing => Output::Nothing,
        }
    }
}

impl PartialEq for Output {
    fn eq(&self, other: &Self) -> (same: bool) {
        match (self, other) {
            (Output::Json(a), Output::Json(b)) => same_text(a.as_str(), b.as_str()),
            (Output::Unavailable(a), Output::Unavailable(b)) => same_text(a.as_str(), b.as_str()),
            (Output::Nothing, Output::Nothing) => true,
            _ => false,
        }
    }
}

impl PartialEqSpecImpl for Output {
    open spec fn obeys_eq_spec() -> bool {
        true
    }

    open spec fn eq_spec(&self, other: &Self) -> bool {
        self@ == other@
    }
}

impl Eq for Output {

}

/// Whether the journal holds the completion.
#[derive(Debug)]
pub enum JournalState {
    Durable,
    Degraded(String),
}

pub enum JournalView {
    Durable,
    Degraded(Seq<char>),
}

impl View for JournalState {
    type V = JournalView;

    open spec fn view(&self) -> JournalView {
        match self {
            JournalState::Durable => JournalView::Durable,
            JournalState::Degraded(code) => JournalView::Degraded(code@),
        }
    }
}

impl Clone for JournalState {
    fn clone(&self) -> (copy: Self)
        ensures
            copy == *self,
    {
        match self {
            JournalState::Durable => JournalState::Durable,
            JournalState::Degraded(code) => JournalState::Degraded(code.clone()),
        }
    }
}

impl PartialEq for JournalState {
    fn eq(&self, other: &Self) -> (same: bool) {
        match (self, other) {
            (JournalState::Durable, JournalState::Durable) => true,
            (JournalState::Degraded(a), JournalState::Degraded(b)) => same_text(
                a.as_str(),
                b.as_str(),
            ),
            _ => false,
        }
    }
}

impl PartialEqSpecImpl for JournalState {
    open spec fn obeys_eq_spec() -> bool {
        true
    }

    open spec fn eq_spec(&self, other: &Self) -> bool {
        self@ == other@
    }
}

impl Eq for JournalState {

}

/// The result of a run: business outcome, output and journal durability, kept apart.
#[derive(Debug)]
pub struct Completion {
    pub outcome: Outcome,
    pub output: Output,
    pub journal: JournalState,
}

pub struct CompletionView {
    pub outcome: OutcomeView,
    pub output: OutputView,
    pub journal: JournalView,
}

impl View for Completion {
    type V = CompletionView;

    open spec fn view(&self) -> CompletionView {
        CompletionView { outcome: self.outcome@, output: self.output@, journal: self.journal@ }
    }
}

impl Clone for Completion {
    fn clone(&self) -> (copy: Self)
        ensures
            copy == *self,
    {
        Completion {
            outcome: self.outcome.clone(),
            output: self.output.clone(),
            journal: self.journal.clone(),
        }
    }
}

impl PartialEq for Completion {
    fn eq(&self, other: &Self) -> (same: bool) {
        self.outcome == other.outcome && self.output == other.output && self.journal
            == other.journal
    }
}

impl PartialEqSpecImpl for Completion {
    open spec fn obeys_eq_spec() -> bool {
        true
    }

    open spec fn eq_spec(&self, other: &Self) -> bool {
        self@ == other@
    }
}

impl Eq for Completion {

}

impl Completion {
    /// A completion with no output, held by the journal.
    pub fn bare(outcome: Outcome) -> (completion: Self)
        ensures
            completion@ == bare_completion(outcome@),
    {
        Completion { outcome, output: Output::Nothing, journal: JournalState::Durable }
    }

    /// Reads the kept output as a value, with a parser for its JSON text.
    pub fn decode<T, F: FnOnce(&str) -> Option<T>>(&self, parse: F) -> (value: Result<T, Error>)
        requires
            forall|text: &str| call_requires(parse, (text,)),
        ensures
            match self.output {
                Output::Json(json) => exists|text: &str, parsed: Option<T>|
                    {
                        &&& text@ == json@
                        &&& #[trigger] call_ensures(parse, (text,), parsed)
                        &&& match parsed {
                            Some(v) => value == Ok::<T, Error>(v),
                            None => value matches Err(e) && e@ == ErrorView::OutputUnavailable(
                                "schema_mismatch"@,
                            ),
                        }
                    },
                Output::Unavailable(code) => value matches Err(e) && e@
                    == ErrorView::OutputUnavailable(code@),
                Output::Nothing => value matches Err(e) && e@ == ErrorView::OutputUnavailable(
                    "no_output"@,
                ),
            },
    {
        match &self.output {
            Output::Json(json) => {
                let text = json.as_str();
                let parsed = parse(text);
                assert(call_ensures(parse, (text,), parsed));
                match parsed {
                    Some(v) => Ok(v),
                    None => Err(Error::OutputUnavailable("schema_mismatch".to_string())),
                }
            },
            Output::Unavailable(code) => Err(Error::OutputUnavailable(code.clone())),
            Output::Nothing => Err(Error::OutputUnavailable("no_output".to_string())),
        }
    }
}

/// A completion with no output, held by the journal.
pub open spec fn bare_completion(outcome: OutcomeView) -> CompletionView {
    CompletionView { outcome, output: OutputView::Nothing, journal: JournalView::Durable }
}

/// Where a run stands.
#[derive(Debug)]
pub enum RunState {
    Admitted,
    Running,
    Cancelling,
    Finalizing,
    Finished(Completion),
}

pub enum RunStateView {
    Admitted,
    Running,
    Cancelling,
    Finalizing,
    Finished(CompletionView),
}

impl View for RunState {
    type V = RunStateView;

    open spec fn view(&self) -> RunStateView {
        match self {
            RunState::Admitted => RunStateView::Admitted,
            RunState::Running => RunStateView::Running,
            RunState::Cancelling => RunStateView::Cancelling,
            RunState::Finalizing => RunStateView::Finalizing,
            RunState::Finished(completion) => RunStateView::Finished(completion@),
        }
    }
}

impl Clone for RunState {
    fn clone(&self) -> (copy: Self)
        ensures
            copy == *self,
    {
        match self {
            RunState::Admitted => RunState::Admitted,
            RunState::Running => RunState::Running,
            RunState::Cancelling => RunState::Cancelling,
            RunState::Finalizing => RunState::Finalizing,
            RunState::Finished(completion) => RunState::Finished(completion.clone()),
        }
    }
}

impl PartialEq for RunState {
    fn eq(&self, other: &Self) -> (same: bool) {
        match (self, other) {
            (RunState::Admitted, RunState::Admitted) => true,
            (RunState::Running, RunState::Running) => true,
            (RunState::Cancelling, RunState::Cancelling) => true,
            (RunState::Finalizing, RunState::Finalizing) => true,
            (RunState::Finished(a), RunState::Finished(b)) => a == b,
            _ => false,
        }
    }
}

impl PartialEqSpecImpl for RunState {
    open spec fn obeys_eq_spec() -> bool {
        true
    }

    open spec fn eq_spec(&self, other: &Self) -> bool {
        self@ == other@
    }
}

impl Eq for RunState {

}

/// What the journal keeps of a run.
#[derive(Debug)]
pub struct RunRecord {
    pub id: RunId,
    pub job: JobKey,
    pub definition_version: u64,
    pub trigger: Trigger,
    pub scheduled_at: Option<Timestamp>,
    pub admitted_at: Timestamp,
    pub admission_sequence: u64,
    pub finished_at: Option<Timestamp>,
    pub state: RunState,
    pub last_log_sequence: u64,
    pub dropped_log_count: u64,
}

pub struct RunRecordView {
    pub id: u128,
    pub job: Seq<char>,
    pub definition_version: u64,
    pub trigger: Trigger,
    pub scheduled_at: Option<Timestamp>,
    pub admitted_at: Timestamp,
    pub admission_sequence: u64,
    pub finished_at: Option<Timestamp>,
    pub state: RunStateView,
    pub last_log_sequence: u64,
    pub dropped_log_count: u64,
}

impl RunRecordView {
    /// Whether the run has a completion.
    pub open spec fn terminal(self) -> bool {
        self.state is Finished
    }

    /// The completion of a finished run.
    pub open spec fn completion(self) -> Option<CompletionView> {
        match self.state {
            RunStateView::Finished(completion) => Some(completion),
            _ => None,
        }
    }

    /// Whether every instant of the record lies within the calendar.
    pub open spec fn dated(self) -> bool {
        &&& self.scheduled_at matches Some(at) ==> at.representable()
        &&& self.admitted_at.representable()
        &&& self.finished_at matches Some(at) ==> at.representable()
    }
}

impl View for RunRecord {
    type V = RunRecordView;

    open spec fn view(&self) -> RunRecordView {
        RunRecordView {
            id: self.id@,
            job: self.job@,
            definition_version: self.definition_version,
            trigger: self.trigger,
            scheduled_at: self.scheduled_at,
            admitted_at: self.admitted_at,
            admission_sequence: self.admission_sequence,
            finished_at: self.finished_at,
            state: self.state@,
            last_log_sequence: self.last_log_sequence,
            dropped_log_count: self.dropped_log_count,
        }
    }
}

impl Clone for RunRecord {
    fn clone(&self) -> (copy: Self)
        ensures
            copy == *self,
    {
        RunRecord {
            id: self.id,
            job: self.job.clone(),
            definition_version: self.definition_version,
            trigger: self.trigger,
            scheduled_at: self.scheduled_at,
            admitted_at: self.admitted_at,
            admission_sequence: self.admission_sequence,
            finished_at: self.finished_at,
            state: self.state.clone(),
            last_log_sequence: self.last_log_sequence,
            dropped_log_count: self.dropped_log_count,
        }
    }
}

impl PartialEq for RunRecord {
    fn eq(&self, other: &Self) -> (same: bool) {
        self.id == other.id && same_text(self.job.as_str(), other.job.as_str())
            && self.definition_version == other.definition_version && self.trigger
            == other.trigger && self.scheduled_at == other.scheduled_at && self.admitted_at
            == other.admitted_at && self.admission_sequence == other.admission_sequence
            && self.finished_at == other.finished_at && self.state == other.state
            && self.last_log_sequence == other.last_log_sequence && self.dropped_log_count
            == other.dropped_log_count
    }
}

impl PartialEqSpecImpl for RunRecord {
    open spec fn obeys_eq_spec() -> bool {
        true
    }

    open spec fn eq_spec(&self, other: &Self) -> bool {
        self@ == other@
    }
}

impl Eq for RunRecord {

}

impl RunRecord {
    /// The completion of a finished run.
    pub fn completion(&self) -> (completion: Option<&Completion>)
        ensures
            completion matches Some(c) ==> self@.completion() == Some(c@),
            completion is None ==> self@.completion() is None,
    {
        match &self.state {
            RunState::Finished(completion) => Some(completion),
            _ => None,
        }
    }
}

/// One captured event of a run.
#[derive(Debug)]
pub struct RunLog {
    pub run_id: RunId,
    pub sequence: u64,
    pub time: Timestamp,
    pub level: String,
    pub target: String,
    /// Only fields that the log policy permits are captured.
    pub fields: SortedMap<String, String>,
}

pub struct RunLogView {
    pub run_id: u128,
    pub sequence: u64,
    pub time: Timestamp,
    pub level: Seq<char>,
    pub target: Seq<char>,
    pub fields: Seq<(Seq<char>, Seq<char>)>,
}

impl View for RunLog {
    type V = RunLogView;

    open spec fn view(&self) -> RunLogView {
        RunLogView {
            run_id: self.run_id@,
            sequence: self.sequence,
            time: self.time,
            level: self.level@,
            target: self.target@,
            fields: self.fields.entries(),
        }
    }
}

impl Clone for RunLog {
    fn clone(&self) -> (copy: Self)
        ensures
            copy@ == self@,
            self.fields.wf() ==> copy.fields.wf(),
    {
        RunLog {
            run_id: self.run_id,
            sequence: self.sequence,
            time: self.time,
            level: self.level.clone(),
            target: self.target.clone(),
            fields: self.fields.clone(),
        }
    }
}

/// The contents of a list of logs.
pub open spec fn log_views(logs: Seq<RunLog>) -> Seq<RunLogView> {
    logs.map_values(|log: RunLog| log@)
}

/// The contents of a list of records.
pub open spec fn record_views(records: Seq<RunRecord>) -> Seq<RunRecordView> {
    records.map_values(|record: RunRecord| record@)
}

/// A position in a job's history.
#[derive(Debug, Clone, Copy, PartialEq, Eq, Hash, Structural)]
pub struct RunCursor {
    pub sequence: u64,
    pub id: RunId,
}

/// A page of results and where the next one starts.
#[derive(Debug)]
pub struct Page<T, C> {
    pub items: Vec<T>,
    pub next: Option<C>,
}

/// How long and how much terminal history is kept.
#[derive(Debug, Clone, Copy, PartialEq, Eq, Structural)]
pub struct Retention {
    pub age: Span,
    pub per_job: usize,
    pub runs: usize,
    pub bytes: usize,
}

/// The retention that holds unless another is chosen: a week, a hundred runs of a job, ten
/// thousand runs, and 256 MiB.
pub open spec fn default_retention() -> Retention {
    Retention {
        age: Span { nanos: 604_800_000_000_000 },
        per_job: 100,
        runs: 10_000,
        bytes: 268_435_456,
    }
}

impl Default for Retention {
    fn default() -> (retention: Self)
        ensures
            retention == default_retention(),
    {
        Retention {
            age: Span::from_secs(7 * 86400),
            per_job: 100,
            runs: 10_000,
            bytes: 256 * 1024 * 1024,
        }
    }
}

/// The bounds of a service.
#[derive(Debug, Clone, Copy, PartialEq, Eq, Structural)]
pub struct Limits {
    pub concurrency: usize,
    pub input_bytes: usize,
    pub output_bytes: usize,
    pub control_timeout: Span,
    pub finalization_timeout: Span,
    pub wait_timeout: Span,
    pub shutdown_timeout: Span,
    pub lateness: Span,
    pub retention: Retention,
}

/// The limits that hold unless others are chosen.
pub open spec fn default_limits() -> Limits {
    Limits {
        concurrency: 8,
        input_bytes: 65536,
        output_bytes: 65536,
        control_timeout: Span { nanos: 10_000_000_000 },
        finalization_timeout: Span { nanos: 10_000_000_000 },
        wait_timeout: Span { nanos: 30_000_000_000 },
        shutdown_timeout: Span { nanos: 30_000_000_000 },
        lateness: Span { nanos: 5_000_000_000 },
        retention: default_retention(),
    }
}

impl Default for Limits {
    fn default() -> (limits: Self)
        ensures
            limits == default_limits(),
    {
        Limits {
            concurrency: 8,
            input_bytes: 64 * 1024,
            output_bytes: 64 * 1024,
            control_timeout: Span::from_secs(10),
            finalization_timeout: Span::from_secs(10),
            wait_timeout: Span::from_secs(30),
            shutdown_timeout: Span::from_secs(30),
            lateness: Span::from_secs(5),
            retention: Retention::default(),
        }
    }
}

/// Why a request was refused or its answer is not known.
#[derive(Debug, PartialEq, Eq)]
pub enum Error {
    Invalid(String),
    NotFound,
    Busy,
    ShuttingDown,
    Journal(String),
    AlreadySubmitted(RunId),
    AdmissionUnknown(RunId),
    AdmissionFailed(String),
    WaitTimedOut(RunId),
    TimedOut,
    Stopped,
    OutputUnavailable(String),
    StaleRevision,
}

pub enum ErrorView {
    Invalid(Seq<char>),
    NotFound,
    Busy,
    ShuttingDown,
    Journal(Seq<char>),
    AlreadySubmitted(u128),
    AdmissionUnknown(u128),
    AdmissionFailed(Seq<char>),
    WaitTimedOut(u128),
    TimedOut,
    Stopped,
    OutputUnavailable(Seq<char>),
    StaleRevision,
}

impl View for Error {
    type V = ErrorView;

    open spec fn view(&self) -> ErrorView {
        match self {
            Error::Invalid(reason) => ErrorView::Invalid(reason@),
            Error::NotFound => ErrorView::NotFound,
            Error::Busy => ErrorView::Busy,
            Error::ShuttingDown => ErrorView::ShuttingDown,
            Error::Journal(reason) => ErrorView::Journal(reason@),
            Error::AlreadySubmitted(id) => ErrorView::AlreadySubmitted(id@),
            Error::AdmissionUnknown(id) => ErrorView::AdmissionUnknown(id@),
            Error::AdmissionFailed(reason) => ErrorView::AdmissionFailed(reason@),
            Error::WaitTimedOut(id) => ErrorView::WaitTimedOut(id@),
            Error::TimedOut => ErrorView::TimedOut,
            Error::Stopped => ErrorView::Stopped,
            Error::OutputUnavailable(code) => ErrorView::OutputUnavailable(code@),
            Error::StaleRevision => ErrorView::StaleRevision,
        }
    }
}

impl Clone for Error {
    fn clone(&self) -> (copy: Self)
        ensures
            copy == *self,
    {
        match self {
            Error::Invalid(reason) => Error::Invalid(reason.clone()),
            Error::NotFound => Error::NotFound,
            Error::Busy => Error::Busy,
            Error::ShuttingDown => Error::ShuttingDown,
            Error::Journal(reason) => Error::Journal(reason.clone()),
            Error::AlreadySubmitted(id) => Error::AlreadySubmitted(*id),
            Error::AdmissionUnknown(id) => Error::AdmissionUnknown(*id),
            Error::AdmissionFailed(reason) => Error::AdmissionFailed(reason.clone()),
            Error::WaitTimedOut(id) => Error::WaitTimedOut(*id),
            Error::TimedOut => Error::TimedOut,
            Error::Stopped => Error::Stopped,
            Error::OutputUnavailable(code) => Error::OutputUnavailable(code.clone()),
            Error::StaleRevision => Error::StaleRevision,
        }
    }
}

/// The text of an error.
pub open spec fn error_text(error: ErrorView) -> Seq<char> {
    match error {
        ErrorView::Invalid(reason) => "invalid definition or input: "@ + reason,
        ErrorView::NotFound => "not found"@,
        ErrorView::Busy => "job or global capacity busy"@,
        ErrorView::ShuttingDown => "service is shutting down"@,
        ErrorView::Journal(reason) => "journal unavailable: "@ + reason,
        ErrorView::AlreadySubmitted(id) => "run already submitted: "@ + hyphenated(id),
        ErrorView::AdmissionUnknown(id) => "admission result unknown; query "@ + hyphenated(id)
            + ", do not resubmit"@,
        ErrorView::AdmissionFailed(reason) => "admission failed: "@ + reason,
        ErrorView::WaitTimedOut(id) => "wait timed out for "@ + hyphenated(id),
        ErrorView::TimedOut => "control call timed out"@,
        ErrorView::Stopped => "service stopped"@,
        ErrorView::OutputUnavailable(code) => "output unavailable: "@ + code,
        ErrorView::StaleRevision => "stale scope revision"@,
    }
}

/// Two texts in a row.
pub(crate) fn joined(first: &str, second: &str) -> (text: String)
    ensures
        text@ == first@ + second@,
{
    let mut text = first.to_string();
    text.append(second);
    text
}

impl Error {
    /// The error as one line.
    pub fn text(&self) -> (text: String)
        ensures
            text@ == error_text(self@),
    {
        match self {
            Error::Invalid(reason) => joined("invalid definition or input: ", reason.as_str()),
            Error::NotFound => "not found".to_string(),
            Error::Busy => "job or global capacity busy".to_string(),
            Error::ShuttingDown => "service is shutting down".to_string(),
            Error::Journal(reason) => joined("journal unavailable: ", reason.as_str()),
            Error::AlreadySubmitted(id) => joined("run already submitted: ", id.text().as_str()),
            Error::AdmissionUnknown(id) => {
                let mut text = joined("admission result unknown; query ", id.text().as_str());
                text.append(", do not resubmit");
                text
            },
            Error::AdmissionFailed(reason) => joined("admission failed: ", reason.as_str()),
            Error::WaitTimedOut(id) => joined("wait timed out for ", id.text().as_str()),
            Error::TimedOut => "control call timed out".to_string(),
            Error::Stopped => "service stopped".to_string(),
            Error::OutputUnavailable(code) => joined("output unavailable: ", code.as_str()),
            Error::StaleRevision => "stale scope revision".to_string(),
        }
    }
}

/// The answer to a cancellation request.
#[derive(Debug, Clone, Copy, PartialEq, Eq, Hash, Structural)]
pub enum CancelResult {
    Requested,
    Unsupported,
    AdmissionPending,
    AlreadyFinished,
}

/// What is left when a shutdown returns.
#[derive(Debug, PartialEq, Eq)]
pub struct ShutdownReport {
    pub remaining: Vec<RunId>,
    pub journal_degraded: bool,
    pub closed: bool,
}

} // verus!
