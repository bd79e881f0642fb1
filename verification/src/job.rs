//! Job definitions, their validation, and what becomes of a handler's return.

use vstd::prelude::*;
use vstd::std_specs::cmp::PartialEqSpecImpl;
use crate::model::{
    bare_completion, error_text, Cancellation, Completion, CompletionView, Error, ErrorView,
    JobError, JobErrorView, JobKey, JournalState, JournalView, Outcome, OutcomeView, Output,
    OutputView,
};
use crate::schedule::{schedule_fault, Schedule, ScheduleView};
use crate::text::{byte_len, same_text, text_bytes};
use crate::time::Timestamp;

verus! {

/// The most bytes that the encoded default input of a job may have.
pub const DEFAULT_INPUT_BYTES: usize = 65536;

/// What a job is, apart from its handler.
#[derive(Debug)]
pub struct JobDefinition {
    pub key: JobKey,
    pub scope: String,
    pub managed_by: String,
    pub name: String,
    /// Change when handler behavior or default input changes. Compared by value: handlers
    /// themselves are never compared or kept.
    pub version: u64,
    pub schedule: Schedule,
    pub cancellation: Cancellation,
}

pub struct DefinitionView {
    pub key: Seq<char>,
    pub scope: Seq<char>,
    pub managed_by: Seq<char>,
    pub name: Seq<char>,
    pub version: u64,
    pub schedule: ScheduleView,
    pub cancellation: Cancellation,
}

impl View for JobDefinition {
    type V = DefinitionView;

    open spec fn view(&self) -> DefinitionView {
        DefinitionView {
            key: self.key@,
            scope: self.scope@,
            managed_by: self.managed_by@,
            name: self.name@,
            version: self.version,
            schedule: self.schedule@,
            cancellation: self.cancellation,
        }
    }
}

impl Clone for JobDefinition {
    fn clone(&self) -> (copy: Self)
        ensures
            copy == *self,
    {
        JobDefinition {
            key: self.key.clone(),
            scope: self.scope.clone(),
            managed_by: self.managed_by.clone(),
            name: self.name.clone(),
            version: self.version,
            schedule: self.schedule.clone(),
            cancellation: self.cancellation,
        }
    }
}

impl PartialEq for JobDefinition {
    fn eq(&self, other: &Self) -> (same: bool) {
        same_text(self.key.as_str(), other.key.as_str()) && same_text(
            self.scope.as_str(),
            other.scope.as_str(),
        ) && same_text(self.managed_by.as_str(), other.managed_by.as_str()) && same_text(
            self.name.as_str(),
            other.name.as_str(),
        ) && self.version == other.version && self.schedule == other.schedule
            && self.cancellation == other.cancellation
    }
}

impl PartialEqSpecImpl for JobDefinition {
    open spec fn obeys_eq_spec() -> bool {
        true
    }

    open spec fn eq_spec(&self, other: &Self) -> bool {
        self@ == other@
    }
}

impl Eq for JobDefinition {

}

/// The definition of a job that only runs on request.
pub open spec fn manual_definition(key: Seq<char>) -> DefinitionView {
    DefinitionView {
        key,
        scope: "default"@,
        managed_by: "application"@,
        name: key,
        version: 1,
        schedule: ScheduleView::Manual,
        cancellation: Cancellation::Unsupported,
    }
}

impl JobDefinition {
    /// A job that only runs on request, named like its key.
    pub fn manual(key: &str) -> (definition: Self)
        ensures
            definition@ == manual_definition(key@),
    {
        JobDefinition {
            key: key.to_string(),
            scope: "default".to_string(),
            managed_by: "application".to_string(),
            name: key.to_string(),
            version: 1,
            schedule: Schedule::Manual,
            cancellation: Cancellation::Unsupported,
        }
    }
}

/// What the decoder of a job's input type makes of an encoded input.
#[derive(Debug)]
pub enum Decoding {
    Accepted,
    Refused(String),
    Panicked,
}

pub enum DecodingView {
    Accepted,
    Refused(Seq<char>),
    Panicked,
}

impl View for Decoding {
    type V = DecodingView;

    open spec fn view(&self) -> DecodingView {
        match self {
            Decoding::Accepted => DecodingView::Accepted,
            Decoding::Refused(reason) => DecodingView::Refused(reason@),
            Decoding::Panicked => DecodingView::Panicked,
        }
    }
}

/// What a decoder says against an input.
pub open spec fn decoding_fault(decoding: DecodingView) -> Option<ErrorView> {
    match decoding {
        DecodingView::Accepted => None,
        DecodingView::Refused(reason) => Some(ErrorView::Invalid(reason)),
        DecodingView::Panicked => Some(ErrorView::Invalid("input decoder panicked"@)),
    }
}

impl Decoding {
    /// The verdict of a decoder as a validation result.
    pub fn verdict(&self) -> (checked: Result<(), Error>)
        ensures
            checked is Ok <==> decoding_fault(self@) is None,
            checked matches Err(e) ==> decoding_fault(self@) == Some(e@),
    {
        match self {
            Decoding::Accepted => Ok(()),
            Decoding::Refused(reason) => Err(Error::Invalid(reason.clone())),
            Decoding::Panicked => Err(Error::Invalid("input decoder panicked".to_string())),
        }
    }
}

/// A definition together with its encoded default input. Handlers are kept by their callers.
#[derive(Debug)]
pub struct Job {
    pub definition: JobDefinition,
    pub input: String,
}

pub struct JobView {
    pub definition: DefinitionView,
    pub input: Seq<char>,
}

impl View for Job {
    type V = JobView;

    open spec fn view(&self) -> JobView {
        JobView { definition: self.definition@, input: self.input@ }
    }
}

impl Clone for Job {
    fn clone(&self) -> (copy: Self)
        ensures
            copy == *self,
    {
        Job { definition: self.definition.clone(), input: self.input.clone() }
    }
}

/// Whether names and sizes of a definition are within bounds.
pub open spec fn identity_fits(definition: DefinitionView) -> bool {
    &&& 0 < byte_len(definition.key) <= 512
    &&& 0 < byte_len(definition.scope) <= 128
    &&& byte_len(definition.name) <= 1024
    &&& byte_len(definition.managed_by) <= 512
}

/// What speaks against registering a job: its identity, then the size of its input, then its
/// decoder, then its schedule.
pub open spec fn job_fault(
    job: JobView,
    limit: nat,
    decoding: DecodingView,
    now: Timestamp,
) -> Option<ErrorView> {
    if !identity_fits(job.definition) {
        Some(ErrorView::Invalid("invalid job identity/metadata"@))
    } else if byte_len(job.input) > limit {
        Some(ErrorView::Invalid("input limit"@))
    } else {
        match decoding_fault(decoding) {
            Some(e) => Some(e),
            None => schedule_fault(job.definition.schedule, now),
        }
    }
}

/// What speaks against the encoding of a default input: it failed, or it is too long.
pub open spec fn default_input_fault(encoded: Result<String, Error>) -> Option<ErrorView> {
    match encoded {
        Ok(input) => if byte_len(input@) > DEFAULT_INPUT_BYTES {
            Some(ErrorView::Invalid(error_text(ErrorView::OutputUnavailable("size_limit"@))))
        } else {
            None
        },
        Err(e) => Some(ErrorView::Invalid(error_text(e@))),
    }
}

impl Job {
    /// A job from its definition and the encoding of its default input, which must be within the
    /// bound. Neither the decoder nor the handler is asked.
    pub fn new(definition: JobDefinition, encoded: Result<String, Error>) -> (job: Result<
        Self,
        Error,
    >)
        ensures
            job is Ok <==> default_input_fault(encoded) is None,
            job matches Err(e) ==> default_input_fault(encoded) == Some(e@),
            job matches Ok(made) ==> encoded matches Ok(input) && made@ == (JobView {
                definition: definition@,
                input: input@,
            }),
    {
        match encoded {
            Ok(input) => if text_bytes(input.as_str()) > DEFAULT_INPUT_BYTES {
                let fault = Error::OutputUnavailable("size_limit".to_string());
                Err(Error::Invalid(fault.text()))
            } else {
                Ok(Job { definition, input })
            },
            Err(e) => Err(Error::Invalid(e.text())),
        }
    }

    /// Tests whether the names and sizes of the definition are within bounds.
    fn has_identity(&self) -> (fits: bool)
        ensures
            fits == identity_fits(self.definition@),
    {
        let key: usize = text_bytes(self.definition.key.as_str());
        let scope: usize = text_bytes(self.definition.scope.as_str());
        0 < key && key <= 512 && 0 < scope && scope <= 128 && text_bytes(
            self.definition.name.as_str(),
        ) <= 1024 && text_bytes(self.definition.managed_by.as_str()) <= 512
    }

    /// Whether validation comes to ask the decoder about the default input: what is wrong with the
    /// identity or too long is refused before.
    pub fn asks_decoder(&self, limit: usize) -> (asks: bool)
        ensures
            asks == (identity_fits(self.definition@) && byte_len(self.input@) <= limit),
    {
        self.has_identity() && text_bytes(self.input.as_str()) <= limit
    }

    /// Checks a job before it is registered.
    pub fn validate_definition(&self, limit: usize, decoding: &Decoding, now: Timestamp) -> (checked:
        Result<(), Error>)
        requires
            now.local_everywhere(),
        ensures
            checked is Ok <==> job_fault(self@, limit as nat, decoding@, now) is None,
            checked matches Err(e) ==> job_fault(self@, limit as nat, decoding@, now) == Some(e@),
    {
        if !self.has_identity() {
            return Err(Error::Invalid("invalid job identity/metadata".to_string()));
        }
        if text_bytes(self.input.as_str()) > limit {
            return Err(Error::Invalid("input limit".to_string()));
        }
        match decoding.verdict() {
            Err(e) => Err(e),
            Ok(()) => self.definition.schedule.validate(now),
        }
    }

    /// Whether two jobs have the same definition and default input.
    pub fn same(&self, other: &Self) -> (same: bool)
        ensures
            same == (self@ == other@),
    {
        self.definition == other.definition && same_text(self.input.as_str(), other.input.as_str())
    }
}

/// How a handler ended.
#[derive(Debug)]
pub enum Ending {
    /// It returned a value, which was encoded or not.
    Returned(Result<String, Error>),
    /// It returned an error.
    Failed(JobError),
    /// It panicked.
    Panicked,
}

/// What is kept of a value that a handler returned.
pub open spec fn kept_output(encoded: Result<String, Error>) -> OutputView {
    match encoded {
        Ok(text) => OutputView::Json(text@),
        Err(Error::OutputUnavailable(code)) => OutputView::Unavailable(code@),
        Err(_) => OutputView::Unavailable("encoding_failed"@),
    }
}

/// The completion of a handler's end: an encoding failure does not make a success a failure, and
/// only the acknowledging error is a cancellation.
pub open spec fn ending_completion(ending: Ending) -> CompletionView {
    match ending {
        Ending::Returned(encoded) => CompletionView {
            outcome: OutcomeView::Succeeded,
            output: kept_output(encoded),
            journal: JournalView::Durable,
        },
        Ending::Failed(error) => bare_completion(
            if error.code@ == "cancelled"@ {
                OutcomeView::Cancelled
            } else {
                OutcomeView::Failed(error@)
            },
        ),
        Ending::Panicked => bare_completion(OutcomeView::Failed(panicked("Handler panicked"@))),
    }
}

/// The error that stands for a panic.
pub open spec fn panicked(message: Seq<char>) -> JobErrorView {
    JobErrorView { code: "panicked"@, message }
}

/// Turns the end of a handler into the completion of its run.
pub fn conclude(ending: Ending) -> (completion: Completion)
    ensures
        completion@ == ending_completion(ending),
{
    match ending {
        Ending::Returned(encoded) => Completion {
            outcome: Outcome::Succeeded,
            output: match encoded {
                Ok(text) => Output::Json(text),
                Err(Error::OutputUnavailable(code)) => Output::Unavailable(code),
                Err(_) => Output::Unavailable("encoding_failed".to_string()),
            },
            journal: JournalState::Durable,
        },
        Ending::Failed(error) => if same_text(error.code.as_str(), "cancelled") {
            Completion::bare(Outcome::Cancelled)
        } else {
            Completion::bare(Outcome::Failed(error))
        },
        Ending::Panicked => Completion::bare(
            Outcome::Failed(JobError::new("panicked", "Handler panicked")),
        ),
    }
}

/// The end of a run whose input no longer decodes.
pub fn input_invalid() -> (ending: Ending)
    ensures
        ending matches Ending::Failed(e) && e@ == (JobErrorView {
            code: "input_invalid"@,
            message: "Input schema changed"@,
        }),
{
    Ending::Failed(JobError::new("input_invalid", "Input schema changed"))
}

/// The end of a blocking handler that panicked on its own thread.
pub fn blocking_panicked() -> (ending: Ending)
    ensures
        ending matches Ending::Failed(e) && e@ == panicked("Blocking handler panicked"@),
{
    Ending::Failed(JobError::new("panicked", "Blocking handler panicked"))
}

/// A value that a handler returned makes its run succeed, whatever becomes of the encoding.
pub proof fn returned_value_is_success(encoded: Result<String, Error>)
    ensures
        ending_completion(Ending::Returned(encoded)).outcome is Succeeded,
        encoded is Err ==> ending_completion(Ending::Returned(encoded)).output is Unavailable,
{
}

/// A run is cancelled exactly where its handler returns the acknowledging error: a request alone
/// cancels nothing.
pub proof fn cancelled_only_when_acknowledged(ending: Ending)
    ensures
        ending_completion(ending).outcome is Cancelled <==> (ending matches Ending::Failed(e)
            && e.code@ == "cancelled"@),
{
}

/// The entrance through which a run's children and delegations are created.
#[derive(Debug, Clone, Copy, PartialEq, Eq, Structural)]
pub struct Entrance {
    pub closed: bool,
}

impl Entrance {
    pub fn new() -> (entrance: Self)
        ensures
            !entrance.closed,
    {
        Entrance { closed: false }
    }

    /// Lets a child or delegation in, unless the run has closed the entrance.
    pub fn enter(&self) -> (entered: Result<(), Error>)
        ensures
            entered is Ok <==> !self.closed,
            entered matches Err(e) ==> e@ == ErrorView::Stopped,
    {
        if self.closed {
            Err(Error::Stopped)
        } else {
            Ok(())
        }
    }

    /// Closes the entrance for good.
    pub fn close(&mut self)
        ensures
            final(self).closed,
    {
        self.closed = true;
    }
}

} // verus!
