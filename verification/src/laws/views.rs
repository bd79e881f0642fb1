//! What values are taken for is what they hold, field by field and kind by kind.

use vstd::prelude::*;
use crate::admission::{Launch, Submission};
use crate::ids::RunId;
use crate::inspect::JobSnapshot;
use crate::job::{Decoding, DecodingView, Job, JobDefinition};
use crate::journal::{Change, ChangeView, StoredRun};
use crate::logging::{Buffer, Ingress};
use crate::model::{
    log_views, record_views, Completion, Error, ErrorView, JobError, JobKey, JournalState,
    JournalView, Outcome, OutcomeView, Output, OutputView, RunCursor, RunLog, RunRecord, RunState,
    RunStateView,
};
use crate::reconcile::{answer_view, candidate_views, Candidate};
use crate::runner::{
    action_views, Action, ActionView, Event, EventView, Phase, PhaseView, Purpose, Run,
};
use crate::schedule::{Schedule, ScheduleView};
use crate::state::{Active, Registration, ScopeSnapshot, State};
use crate::tick::{launch_views, Due};
use crate::time::Timestamp;

verus! {

/// A record, a log and a position hold what they are taken for.
pub proof fn records_are_what_they_hold(record: RunRecord, log: RunLog, cursor: RunCursor)
    ensures
        record@.id == record.id.bits,
        record@.job == record.job@,
        record@.definition_version == record.definition_version,
        record@.trigger == record.trigger,
        record@.scheduled_at == record.scheduled_at,
        record@.admitted_at == record.admitted_at,
        record@.admission_sequence == record.admission_sequence,
        record@.finished_at == record.finished_at,
        record@.state == record.state@,
        record@.last_log_sequence == record.last_log_sequence,
        record@.dropped_log_count == record.dropped_log_count,
        log@.run_id == log.run_id.bits,
        log@.sequence == log.sequence,
        log@.time == log.time,
        log@.level == log.level@,
        log@.target == log.target@,
        log@.fields == log.fields.entries(),
        cursor@ == (cursor.sequence, cursor.id.bits),
{
}

/// A state of a run and its completion are of the kind they are taken for.
pub proof fn results_are_what_they_hold(completion: Completion, error: JobError, text: String)
    ensures
        RunState::Admitted@ is Admitted,
        RunState::Running@ is Running,
        RunState::Cancelling@ is Cancelling,
        RunState::Finalizing@ is Finalizing,
        RunState::Finished(completion)@ == RunStateView::Finished(completion@),
        completion@.outcome == completion.outcome@,
        completion@.output == completion.output@,
        completion@.journal == completion.journal@,
        Outcome::Succeeded@ is Succeeded,
        Outcome::Failed(error)@ == OutcomeView::Failed(error@),
        Outcome::Cancelled@ is Cancelled,
        Outcome::Interrupted@ is Interrupted,
        Outcome::Skipped@ is Skipped,
        error@.code == error.code@,
        error@.message == error.message@,
        Output::Json(text)@ == OutputView::Json(text@),
        Output::Unavailable(text)@ == OutputView::Unavailable(text@),
        Output::Nothing@ is Nothing,
        JournalState::Durable@ is Durable,
        JournalState::Degraded(text)@ == JournalView::Degraded(text@),
{
}

/// An error, and what a decoder says, is of the kind it is taken for.
pub proof fn errors_are_what_they_hold(text: String, id: RunId, error: Error)
    ensures
        Error::Invalid(text)@ == ErrorView::Invalid(text@),
        Error::NotFound@ is NotFound,
        Error::Busy@ is Busy,
        Error::ShuttingDown@ is ShuttingDown,
        Error::Journal(text)@ == ErrorView::Journal(text@),
        Error::AlreadySubmitted(id)@ == ErrorView::AlreadySubmitted(id.bits),
        Error::AdmissionUnknown(id)@ == ErrorView::AdmissionUnknown(id.bits),
        Error::AdmissionFailed(text)@ == ErrorView::AdmissionFailed(text@),
        Error::WaitTimedOut(id)@ == ErrorView::WaitTimedOut(id.bits),
        Error::TimedOut@ is TimedOut,
        Error::Stopped@ is Stopped,
        Error::OutputUnavailable(text)@ == ErrorView::OutputUnavailable(text@),
        Error::StaleRevision@ is StaleRevision,
        Decoding::Accepted@ is Accepted,
        Decoding::Refused(text)@ == DecodingView::Refused(text@),
        Decoding::Panicked@ is Panicked,
        answer_view(Ok(())) == Ok::<(), ErrorView>(()),
        answer_view(Err(error)) == Err::<(), ErrorView>(error@),
{
}

/// A job, its definition and its schedule hold what they are taken for.
pub proof fn jobs_are_what_they_hold(
    job: Job,
    definition: JobDefinition,
    ms: u64,
    expression: String,
    timezone: String,
)
    ensures
        job@.definition == job.definition@,
        job@.input == job.input@,
        definition@.key == definition.key@,
        definition@.scope == definition.scope@,
        definition@.managed_by == definition.managed_by@,
        definition@.name == definition.name@,
        definition@.version == definition.version,
        definition@.schedule == definition.schedule@,
        definition@.cancellation == definition.cancellation,
        Schedule::Manual@ is Manual,
        (Schedule::Once { delay_ms: ms })@ == (ScheduleView::Once { delay_ms: ms }),
        (Schedule::Interval { every_ms: ms })@ == (ScheduleView::Interval { every_ms: ms }),
        (Schedule::Cron { expression, timezone })@ == (ScheduleView::Cron {
            expression: expression@,
            timezone: timezone@,
        }),
{
}

/// A submission, a launch, a candidate and a due job hold what they are taken for.
pub proof fn requests_are_what_they_hold(
    submission: Submission,
    launch: Launch,
    candidate: Candidate,
    due: Due,
)
    ensures
        submission@.key == submission.key@,
        submission@.id == submission.id.bits,
        submission@.input is Some <==> submission.input is Some,
        submission.input matches Some(text) ==> submission@.input == Some(text@),
        submission@.trigger == submission.trigger,
        submission@.scheduled == submission.scheduled,
        submission@.skip == submission.skip,
        launch@.record == launch.record@,
        launch@.job == launch.job@,
        launch@.input == launch.input@,
        launch@.skip == launch.skip,
        candidate@.job == candidate.job@,
        candidate@.decoding == candidate.decoding@,
        due@.key == due.key@,
        due@.trigger == due.trigger,
        due@.scheduled == due.scheduled,
{
}

/// A service and what it holds of jobs, scopes and runs are what they are taken for.
pub proof fn services_are_what_they_hold(
    state: State,
    active: Active,
    scope: ScopeSnapshot,
    registration: Registration,
    snapshot: JobSnapshot,
)
    ensures
        state@.jobs == state.jobs@,
        state@.scopes == state.scopes@,
        state@.active == state.active@,
        state@.faults == state.faults@.dom(),
        state@.generation == state.generation,
        state@.maintaining == state.maintaining,
        state@.maintenance_due == state.maintenance_due,
        state@.shutting_down == state.shutting_down,
        state@.limits == state.limits,
        state@.dropped == state.dropped,
        state@.missed == state.missed,
        active@.record == active.record@,
        active@.capability == active.capability,
        active@.cancelled == active.cancelled,
        active@.published is Some <==> active.published is Some,
        active.published matches Some(record) ==> active@.published == Some(record@),
        active@.admitting == active.admitting,
        active@.uncertain == active.uncertain,
        active@.skip == active.skip,
        scope@.source_revision == scope.source_revision,
        scope@.applied_revision == scope.applied_revision,
        scope@.last_error is Some <==> scope.last_error is Some,
        scope.last_error matches Some(text) ==> scope@.last_error == Some(text@),
        registration@.job == registration.job@,
        registration@.generation == registration.generation,
        registration@.timing == registration.timing,
        snapshot@.definition == snapshot.definition@,
        snapshot@.generation == snapshot.generation,
        snapshot@.next_run_at == snapshot.next_run_at,
        snapshot@.active_runs == snapshot.active_runs@.map_values(|id: RunId| id.bits),
{
    assert(snapshot@.active_runs =~= snapshot.active_runs@.map_values(|id: RunId| id.bits));
}

/// An owner holds what it is taken for, and stands where it is taken to stand.
pub proof fn owners_are_what_they_hold(
    run: Run,
    late: bool,
    purpose: Purpose,
    pause: u64,
    completion: Completion,
)
    ensures
        run@.record == run.record@,
        run@.skip == run.skip,
        run@.reply == run.reply,
        run@.batch == log_views(run.batch@),
        run@.pending == log_views(run.pending@),
        run@.append == run.append,
        run@.phase == run.phase@,
        Phase::Waiting@ is Waiting,
        (Phase::Admitting { late })@ == (PhaseView::Admitting { late }),
        (Phase::Healing { purpose, pause })@ == (PhaseView::Healing { purpose, pause }),
        (Phase::Checking { purpose, pause })@ == (PhaseView::Checking { purpose, pause }),
        Phase::ReadingBack@ is ReadingBack,
        Phase::Deciding@ is Deciding,
        (Phase::Executing { returned: None })@ == (PhaseView::Executing { returned: None }),
        (Phase::Executing { returned: Some(completion) })@ == (PhaseView::Executing {
            returned: Some(completion@),
        }),
        (Phase::Draining { completion })@ == (PhaseView::Draining { completion: completion@ }),
        (Phase::Sealing { completion })@ == (PhaseView::Sealing { completion: completion@ }),
        (Phase::Flushing { late })@ == (PhaseView::Flushing { late }),
        (Phase::Saving { late, pause })@ == (PhaseView::Saving { late, pause }),
        (Phase::Pausing { pause })@ == (PhaseView::Pausing { pause }),
        Phase::Pruning@ is Pruning,
        Phase::Ended@ is Ended,
{
}

/// What happens to an owner is what it is taken for.
pub proof fn events_are_what_they_hold(
    flag: bool,
    record: RunRecord,
    error: Error,
    completion: Completion,
    logs: Vec<RunLog>,
    sequence: u64,
    dropped: u64,
    at: Timestamp,
)
    ensures
        (Event::Begun { reply: flag })@ == (EventView::Begun { reply: flag }),
        Event::ControlTimeout@ is ControlTimeout,
        Event::Admitted(Ok(record))@ == EventView::Admitted(Ok(record@)),
        Event::Admitted(Err(error))@ == EventView::Admitted(Err(error@)),
        Event::Woken@ is Woken,
        Event::Healthy(flag)@ == EventView::Healthy(flag),
        Event::Got(Ok(Some(record)))@ == EventView::Got(Ok(Some(record@))),
        Event::Got(Ok(None))@ == EventView::Got(Ok(None)),
        Event::Got(Err(error))@ == EventView::Got(Err(error@)),
        Event::Decided(flag)@ == EventView::Decided(flag),
        Event::Returned(completion)@ == EventView::Returned(completion@),
        Event::TaskEnded(flag)@ == EventView::TaskEnded(flag),
        Event::LogTimer(logs)@ == EventView::LogTimer(log_views(logs@)),
        Event::AppendTimeout@ is AppendTimeout,
        Event::Appended(flag)@ == EventView::Appended(flag),
        Event::Drained@ is Drained,
        (Event::Sealed { tail: logs, sequence, dropped, at })@ == (EventView::Sealed {
            tail: log_views(logs@),
            sequence,
            dropped,
            at,
        }),
        Event::FinalizationTimeout@ is FinalizationTimeout,
        Event::Saved(flag)@ == EventView::Saved(flag),
        Event::Pruned(flag)@ == EventView::Pruned(flag),
{
}

/// What an owner does is what it is taken for.
pub proof fn actions_are_what_they_hold(
    flag: bool,
    record: RunRecord,
    error: Error,
    logs: Vec<RunLog>,
    seconds: u64,
)
    ensures
        Action::Save(record)@ == ActionView::Save(record@),
        Action::Reply(Ok(()))@ == ActionView::Reply(Ok(())),
        Action::Reply(Err(error))@ == ActionView::Reply(Err(error@)),
        Action::Fault@ is Fault,
        Action::Pause(seconds)@ == ActionView::Pause(seconds),
        Action::Check@ is Check,
        Action::Read@ is Read,
        Action::Started(record)@ == ActionView::Started(record@),
        Action::OpenLogs@ is OpenLogs,
        Action::Execute@ is Execute,
        Action::Progress(record, flag)@ == ActionView::Progress(record@, flag),
        Action::Append(logs)@ == ActionView::Append(log_views(logs@)),
        Action::Drain@ is Drain,
        Action::Seal@ is Seal,
        Action::Finish(record, logs)@ == ActionView::Finish(record@, log_views(logs@)),
        Action::Prune@ is Prune,
        Action::Done@ is Done,
{
}

/// A change of the journal, a stored run and the buffers of logs hold what they are taken for.
pub proof fn journals_are_what_they_hold(
    record: RunRecord,
    job: JobKey,
    sequence: u64,
    id: RunId,
    log: RunLog,
    row: StoredRun,
    buffer: Buffer,
    ingress: Ingress,
)
    ensures
        Change::PutRun(record)@ == ChangeView::PutRun(record@),
        Change::PutIndex(job, sequence, id)@ == ChangeView::PutIndex(job@, sequence, id.bits),
        Change::PutSequence(sequence)@ == ChangeView::PutSequence(sequence),
        Change::PutLog(log)@ == ChangeView::PutLog(log@),
        Change::RemoveRun(id)@ == ChangeView::RemoveRun(id.bits),
        Change::RemoveIndex(job, sequence, id)@ == ChangeView::RemoveIndex(
            job@,
            sequence,
            id.bits,
        ),
        Change::RemoveLog(id, sequence)@ == ChangeView::RemoveLog(id.bits, sequence),
        row@.record == row.record@,
        row@.bytes == row.bytes,
        row@.logs == row.logs@,
        buffer@.queue == log_views(buffer.queue@),
        buffer@.sequence == buffer.sequence,
        buffer@.dropped == buffer.dropped,
        buffer@.accepted == buffer.accepted,
        buffer@.bytes == buffer.bytes,
        buffer@.sealed == buffer.sealed,
        ingress@.budget == ingress.budget,
        ingress@.runs == ingress.runs@,
{
}

/// Lists are taken for what their entries hold, one for one and in order.
pub proof fn lists_are_what_they_hold(
    logs: Seq<RunLog>,
    records: Seq<RunRecord>,
    actions: Seq<Action>,
    launches: Seq<Launch>,
    candidates: Seq<Candidate>,
    i: int,
)
    ensures
        log_views(logs).len() == logs.len(),
        0 <= i < logs.len() ==> log_views(logs)[i] == logs[i]@,
        record_views(records).len() == records.len(),
        0 <= i < records.len() ==> record_views(records)[i] == records[i]@,
        action_views(actions).len() == actions.len(),
        0 <= i < actions.len() ==> action_views(actions)[i] == actions[i]@,
        launch_views(launches).len() == launches.len(),
        0 <= i < launches.len() ==> launch_views(launches)[i] == launches[i]@,
        candidate_views(candidates).len() == candidates.len(),
        0 <= i < candidates.len() ==> candidate_views(candidates)[i] == candidates[i]@,
{
}

} // verus!
