//! The owner of one run: admission, execution, log flushing, the durable result, and cleanup, as
//! a machine from events to actions.

use vstd::prelude::*;
use crate::job::panicked;
use crate::model::{
    bare_completion, log_views, Completion, CompletionView, Error, ErrorView, JobError,
    JournalState, JournalView, Outcome, OutcomeView, RunLog, RunLogView, RunRecord,
    RunRecordView, RunState, RunStateView,
};
use crate::text::same_text;
use crate::time::Timestamp;

verus! {

/// The longest pause between two attempts at the journal, in seconds.
pub const LONGEST_PAUSE: u64 = 30;

/// The pause after another failure: twice as long, up to the longest.
pub open spec fn longer_pause(pause: u64) -> u64 {
    if pause * 2 < LONGEST_PAUSE {
        (pause * 2) as u64
    } else {
        LONGEST_PAUSE
    }
}

/// The pause after `n` failures.
pub open spec fn pause_after(n: nat) -> u64
    decreases n,
{
    if n == 0 {
        1
    } else {
        longer_pause(pause_after((n - 1) as nat))
    }
}

/// Computes the pause after another failure.
pub(crate) fn next_pause(pause: u64) -> (longer: u64)
    requires
        pause <= LONGEST_PAUSE,
    ensures
        longer == longer_pause(pause),
        longer <= LONGEST_PAUSE,
{
    if pause * 2 < LONGEST_PAUSE {
        pause * 2
    } else {
        LONGEST_PAUSE
    }
}

/// The pauses are one, two, four, eight, sixteen and then thirty seconds.
pub proof fn pauses_grow_to_thirty(n: nat)
    ensures
        pause_after(0) == 1,
        pause_after(1) == 2,
        pause_after(2) == 4,
        pause_after(3) == 8,
        pause_after(4) == 16,
        n >= 5 ==> pause_after(n) == 30,
        1 <= pause_after(n) <= LONGEST_PAUSE,
    decreases n,
{
    reveal_with_fuel(pause_after, 6);
    if n > 5 {
        pauses_grow_to_thirty((n - 1) as nat);
    }
}

/// What the owner waits for the journal's health for.
#[derive(Debug, Clone, Copy, PartialEq, Eq, Structural)]
pub enum Purpose {
    /// To end a run that was surely not admitted.
    NotAdmitted,
    /// To read back an admission whose result is not known.
    ReadBack,
    /// To end a run whose cleanup failed.
    Cleanup,
}

/// How the owner's batch of logs stands with the journal.
#[derive(Debug, Clone, Copy, PartialEq, Eq, Structural)]
pub enum Append {
    Idle,
    /// A batch is being written; whether it is late.
    InFlight { late: bool },
    /// A batch failed: what is pending goes with the result.
    Failed,
}

/// Where the owner stands.
#[derive(Debug)]
pub enum Phase {
    /// Before the submission's answer port was handed over.
    Waiting,
    /// The admission is being written.
    Admitting { late: bool },
    /// A pause before the journal's health is asked for.
    Healing { purpose: Purpose, pause: u64 },
    /// The journal's health is being asked for.
    Checking { purpose: Purpose, pause: u64 },
    /// The record is being read back.
    ReadingBack,
    /// The service decides whether the handler may start.
    Deciding,
    /// The handler runs, or its children do after it returned.
    Executing { returned: Option<Completion> },
    /// Children and delegations are waited for.
    Draining { completion: Completion },
    /// The log buffer is being sealed.
    Sealing { completion: Completion },
    /// A batch of logs that is still being written is waited for.
    Flushing { late: bool },
    /// The result is being written.
    Saving { late: bool, pause: u64 },
    /// A pause before the result is written again.
    Pausing { pause: u64 },
    /// Retention is being applied.
    Pruning,
    /// Nothing is left to do.
    Ended,
}

pub enum PhaseView {
    Waiting,
    Admitting { late: bool },
    Healing { purpose: Purpose, pause: u64 },
    Checking { purpose: Purpose, pause: u64 },
    ReadingBack,
    Deciding,
    Executing { returned: Option<CompletionView> },
    Draining { completion: CompletionView },
    Sealing { completion: CompletionView },
    Flushing { late: bool },
    Saving { late: bool, pause: u64 },
    Pausing { pause: u64 },
    Pruning,
    Ended,
}

/// The contents of an optional completion.
pub open spec fn completion_view(completion: Option<Completion>) -> Option<CompletionView> {
    match completion {
        Some(c) => Some(c@),
        None => None,
    }
}

impl View for Phase {
    type V = PhaseView;

    open spec fn view(&self) -> PhaseView {
        match self {
            Phase::Waiting => PhaseView::Waiting,
            Phase::Admitting { late } => PhaseView::Admitting { late: *late },
            Phase::Healing { purpose, pause } => PhaseView::Healing {
                purpose: *purpose,
                pause: *pause,
            },
            Phase::Checking { purpose, pause } => PhaseView::Checking {
                purpose: *purpose,
                pause: *pause,
            },
            Phase::ReadingBack => PhaseView::ReadingBack,
            Phase::Deciding => PhaseView::Deciding,
            Phase::Executing { returned } => PhaseView::Executing {
                returned: completion_view(*returned),
            },
            Phase::Draining { completion } => PhaseView::Draining { completion: completion@ },
            Phase::Sealing { completion } => PhaseView::Sealing { completion: completion@ },
            Phase::Flushing { late } => PhaseView::Flushing { late: *late },
            Phase::Saving { late, pause } => PhaseView::Saving { late: *late, pause: *pause },
            Phase::Pausing { pause } => PhaseView::Pausing { pause: *pause },
            Phase::Pruning => PhaseView::Pruning,
            Phase::Ended => PhaseView::Ended,
        }
    }
}

/// What happens to a run.
#[derive(Debug)]
pub enum Event {
    /// The submission's answer port was handed over, or dropped.
    Begun { reply: bool },
    /// The admission takes longer than a control call may.
    ControlTimeout,
    /// The admission's result.
    Admitted(Result<RunRecord, Error>),
    /// A pause is over.
    Woken,
    /// Whether the journal is healthy.
    Healthy(bool),
    /// The record read back.
    Got(Result<Option<RunRecord>, Error>),
    /// Whether the handler may start.
    Decided(bool),
    /// The handler returned.
    Returned(Completion),
    /// The handler's task ended with its children, or failed itself.
    TaskEnded(bool),
    /// Some time went by: what the log buffer held.
    LogTimer(Vec<RunLog>),
    /// The batch of logs takes too long.
    AppendTimeout,
    /// Whether the batch of logs was written.
    Appended(bool),
    /// Children and delegations are over.
    Drained,
    /// The log buffer is sealed: its rest, its counters, and the time.
    Sealed { tail: Vec<RunLog>, sequence: u64, dropped: u64, at: Timestamp },
    /// The final write takes too long.
    FinalizationTimeout,
    /// Whether the result was written.
    Saved(bool),
    /// Whether retention was applied.
    Pruned(bool),
}

pub enum EventView {
    Begun { reply: bool },
    ControlTimeout,
    Admitted(Result<RunRecordView, ErrorView>),
    Woken,
    Healthy(bool),
    Got(Result<Option<RunRecordView>, ErrorView>),
    Decided(bool),
    Returned(CompletionView),
    TaskEnded(bool),
    LogTimer(Seq<RunLogView>),
    AppendTimeout,
    Appended(bool),
    Drained,
    Sealed { tail: Seq<RunLogView>, sequence: u64, dropped: u64, at: Timestamp },
    FinalizationTimeout,
    Saved(bool),
    Pruned(bool),
}

impl View for Event {
    type V = EventView;

    open spec fn view(&self) -> EventView {
        match self {
            Event::Begun { reply } => EventView::Begun { reply: *reply },
            Event::ControlTimeout => EventView::ControlTimeout,
            Event::Admitted(Ok(record)) => EventView::Admitted(Ok(record@)),
            Event::Admitted(Err(e)) => EventView::Admitted(Err(e@)),
            Event::Woken => EventView::Woken,
            Event::Healthy(ok) => EventView::Healthy(*ok),
            Event::Got(Ok(Some(record))) => EventView::Got(Ok(Some(record@))),
            Event::Got(Ok(None)) => EventView::Got(Ok(None)),
            Event::Got(Err(e)) => EventView::Got(Err(e@)),
            Event::Decided(start) => EventView::Decided(*start),
            Event::Returned(completion) => EventView::Returned(completion@),
            Event::TaskEnded(ok) => EventView::TaskEnded(*ok),
            Event::LogTimer(logs) => EventView::LogTimer(log_views(logs@)),
            Event::AppendTimeout => EventView::AppendTimeout,
            Event::Appended(ok) => EventView::Appended(*ok),
            Event::Drained => EventView::Drained,
            Event::Sealed { tail, sequence, dropped, at } => EventView::Sealed {
                tail: log_views(tail@),
                sequence: *sequence,
                dropped: *dropped,
                at: *at,
            },
            Event::FinalizationTimeout => EventView::FinalizationTimeout,
            Event::Saved(ok) => EventView::Saved(*ok),
            Event::Pruned(ok) => EventView::Pruned(*ok),
        }
    }
}

/// What the owner does.
#[derive(Debug)]
pub enum Action {
    /// Write the admission.
    Save(RunRecord),
    /// Answer the submission.
    Reply(Result<(), Error>),
    /// Tell the service of a fault of the journal.
    Fault,
    /// Pause for some seconds.
    Pause(u64),
    /// Ask for the journal's health.
    Check,
    /// Read the record of the run.
    Read,
    /// Tell the service that the admission is confirmed, and ask whether to start.
    Started(RunRecord),
    /// Open the log buffer.
    OpenLogs,
    /// Run the handler.
    Execute,
    /// Show the service the record; whether execution is uncertain.
    Progress(RunRecord, bool),
    /// Write a batch of logs.
    Append(Vec<RunLog>),
    /// Close the entrance for children and wait for them.
    Drain,
    /// Seal the log buffer.
    Seal,
    /// Write the result and the logs that are left.
    Finish(RunRecord, Vec<RunLog>),
    /// Apply retention.
    Prune,
    /// Tell the service that the run ended.
    Done,
}

pub enum ActionView {
    Save(RunRecordView),
    Reply(Result<(), ErrorView>),
    Fault,
    Pause(u64),
    Check,
    Read,
    Started(RunRecordView),
    OpenLogs,
    Execute,
    Progress(RunRecordView, bool),
    Append(Seq<RunLogView>),
    Drain,
    Seal,
    Finish(RunRecordView, Seq<RunLogView>),
    Prune,
    Done,
}

impl View for Action {
    type V = ActionView;

    open spec fn view(&self) -> ActionView {
        match self {
            Action::Save(record) => ActionView::Save(record@),
            Action::Reply(Ok(())) => ActionView::Reply(Ok(())),
            Action::Reply(Err(e)) => ActionView::Reply(Err(e@)),
            Action::Fault => ActionView::Fault,
            Action::Pause(seconds) => ActionView::Pause(*seconds),
            Action::Check => ActionView::Check,
            Action::Read => ActionView::Read,
            Action::Started(record) => ActionView::Started(record@),
            Action::OpenLogs => ActionView::OpenLogs,
            Action::Execute => ActionView::Execute,
            Action::Progress(record, uncertain) => ActionView::Progress(record@, *uncertain),
            Action::Append(logs) => ActionView::Append(log_views(logs@)),
            Action::Drain => ActionView::Drain,
            Action::Seal => ActionView::Seal,
            Action::Finish(record, logs) => ActionView::Finish(record@, log_views(logs@)),
            Action::Prune => ActionView::Prune,
            Action::Done => ActionView::Done,
        }
    }
}

/// The contents of a list of actions.
pub open spec fn action_views(actions: Seq<Action>) -> Seq<ActionView> {
    actions.map_values(|action: Action| action@)
}

/// The owner of one run.
#[derive(Debug)]
pub struct Run {
    pub record: RunRecord,
    /// Whether the run only records a collision.
    pub skip: bool,
    /// Whether the submission still waits for its answer.
    pub reply: bool,
    /// The batch of logs that is being written.
    pub batch: Vec<RunLog>,
    /// The logs that are in no batch and that the journal is not known to hold.
    pub pending: Vec<RunLog>,
    pub append: Append,
    pub phase: Phase,
}

pub struct RunView {
    pub record: RunRecordView,
    pub skip: bool,
    pub reply: bool,
    pub batch: Seq<RunLogView>,
    pub pending: Seq<RunLogView>,
    pub append: Append,
    pub phase: PhaseView,
}

impl View for Run {
    type V = RunView;

    open spec fn view(&self) -> RunView {
        RunView {
            record: self.record@,
            skip: self.skip,
            reply: self.reply,
            batch: log_views(self.batch@),
            pending: log_views(self.pending@),
            append: self.append,
            phase: self.phase@,
        }
    }
}

/// The owner of a run before anything happened.
pub open spec fn new_run(record: RunRecordView, skip: bool) -> RunView {
    RunView {
        record,
        skip,
        reply: false,
        batch: Seq::empty(),
        pending: Seq::empty(),
        append: Append::Idle,
        phase: PhaseView::Waiting,
    }
}

/// An owner and what it does.
pub type Stepped = (RunView, Seq<ActionView>);

/// The answer to a submission whose admission failed.
pub open spec fn admission_answer(id: u128, error: ErrorView) -> ErrorView {
    match error {
        ErrorView::AlreadySubmitted(_) | ErrorView::AdmissionFailed(_) => error,
        _ => ErrorView::AdmissionUnknown(id),
    }
}

/// The reply that an owner gives if it still owes one.
pub open spec fn owed_reply(run: RunView, answer: Result<(), ErrorView>) -> Seq<ActionView> {
    if run.reply {
        seq![ActionView::Reply(answer)]
    } else {
        Seq::empty()
    }
}

/// A record with a degraded journal.
pub open spec fn degraded(record: RunRecordView, code: Seq<char>) -> RunRecordView {
    match record.state {
        RunStateView::Finished(completion) => RunRecordView {
            state: RunStateView::Finished(
                CompletionView { journal: JournalView::Degraded(code), ..completion },
            ),
            ..record
        },
        _ => record,
    }
}

/// Telling of a fault and showing the real result with a degraded journal.
pub open spec fn shown_degraded(record: RunRecordView, code: Seq<char>) -> Seq<ActionView> {
    seq![ActionView::Fault, ActionView::Progress(degraded(record, code), false)]
}

/// Whether a completion leaves execution uncertain: the handler panicked.
pub open spec fn is_uncertain(completion: CompletionView) -> bool {
    completion.outcome matches OutcomeView::Failed(e) && e.code == "panicked"@
}

/// The completion of a task that failed itself.
pub open spec fn wrapper_panicked() -> CompletionView {
    bare_completion(OutcomeView::Failed(panicked("Execution wrapper panicked"@)))
}

/// The completion of a run whose handler is not started.
pub open spec fn not_started(skip: bool) -> CompletionView {
    bare_completion(
        if skip {
            OutcomeView::Skipped
        } else {
            OutcomeView::Cancelled
        },
    )
}

/// The admission takes too long: whether it will be written is not known.
pub open spec fn on_overdue(run: RunView) -> Stepped {
    (
        RunView { reply: false, phase: PhaseView::Admitting { late: true }, ..run },
        seq![ActionView::Fault] + owed_reply(
            run,
            Err(ErrorView::AdmissionUnknown(run.record.id)),
        ),
    )
}

/// The admission's result arrives.
pub open spec fn on_admitted(run: RunView, result: Result<RunRecordView, ErrorView>) -> Stepped {
    match result {
        Ok(saved) => (
            RunView { record: saved, phase: PhaseView::Deciding, ..run },
            seq![ActionView::Started(saved)],
        ),
        Err(error) => {
            let answer = owed_reply(run, Err(admission_answer(run.record.id, error)));
            if error is AlreadySubmitted {
                (
                    RunView { reply: false, phase: PhaseView::Ended, ..run },
                    answer.push(ActionView::Done),
                )
            } else {
                let purpose = if error is AdmissionFailed {
                    Purpose::NotAdmitted
                } else {
                    Purpose::ReadBack
                };
                (
                    RunView {
                        reply: false,
                        phase: PhaseView::Healing { purpose, pause: 1 },
                        ..run
                    },
                    seq![ActionView::Fault] + answer.push(ActionView::Pause(1)),
                )
            }
        },
    }
}

/// The journal is healthy again.
pub open spec fn on_healthy(run: RunView, purpose: Purpose) -> Stepped {
    match purpose {
        Purpose::ReadBack => (
            RunView { phase: PhaseView::ReadingBack, ..run },
            seq![ActionView::Read],
        ),
        _ => (RunView { phase: PhaseView::Ended, ..run }, seq![ActionView::Done]),
    }
}

/// The record read back arrives.
pub open spec fn on_got(
    run: RunView,
    result: Result<Option<RunRecordView>, ErrorView>,
) -> Stepped {
    match result {
        Ok(Some(saved)) => if saved.terminal() {
            (
                RunView { record: saved, phase: PhaseView::Ended, ..run },
                seq![ActionView::Progress(saved, false), ActionView::Done],
            )
        } else {
            (
                RunView { record: saved, phase: PhaseView::Deciding, ..run },
                seq![ActionView::Started(saved)],
            )
        },
        Ok(None) => (RunView { phase: PhaseView::Ended, ..run }, seq![ActionView::Done]),
        Err(_) => (
            RunView {
                phase: PhaseView::Healing { purpose: Purpose::ReadBack, pause: 1 },
                ..run
            },
            seq![ActionView::Pause(1)],
        ),
    }
}

/// The service decided.
pub open spec fn on_decided(run: RunView, start: bool) -> Stepped {
    let begin = owed_reply(run, Ok(())).push(ActionView::OpenLogs);
    if start && !run.skip {
        (
            RunView {
                reply: false,
                record: RunRecordView { state: RunStateView::Running, ..run.record },
                phase: PhaseView::Executing { returned: None },
                ..run
            },
            begin.push(ActionView::Execute),
        )
    } else {
        (
            RunView {
                reply: false,
                phase: PhaseView::Draining { completion: not_started(run.skip) },
                ..run
            },
            begin.push(ActionView::Drain),
        )
    }
}

/// Whether an owner wants to be handed logs: the handler or its children run, and no batch is
/// under way or has failed.
pub open spec fn wants_logs(run: RunView) -> bool {
    run.phase is Executing && run.append is Idle
}

/// An owner that no longer waits for a batch and does not know whether it was written: its logs
/// are to be written again.
pub open spec fn taken_back(run: RunView, append: Append) -> RunView {
    RunView { append, batch: Seq::empty(), pending: run.batch + run.pending, ..run }
}

/// Something happens while the handler or its children run.
pub open spec fn on_executing(
    run: RunView,
    returned: Option<CompletionView>,
    event: EventView,
) -> Stepped {
    match event {
        EventView::Returned(completion) => match returned {
            None => (
                RunView { phase: PhaseView::Executing { returned: Some(completion) }, ..run },
                seq![ActionView::Progress(run.record, is_uncertain(completion))],
            ),
            Some(_) => (run, Seq::empty()),
        },
        EventView::TaskEnded(ok) => {
            let completion = match returned {
                Some(completion) => if ok {
                    completion
                } else {
                    wrapper_panicked()
                },
                None => wrapper_panicked(),
            };
            (RunView { phase: PhaseView::Draining { completion }, ..run }, seq![ActionView::Drain])
        },
        EventView::AppendTimeout => if run.append == (Append::InFlight { late: false }) {
            (
                RunView { append: Append::InFlight { late: true }, ..run },
                seq![ActionView::Fault],
            )
        } else {
            (run, Seq::empty())
        },
        EventView::Appended(ok) => if run.append is InFlight {
            if ok {
                (RunView { append: Append::Idle, batch: Seq::empty(), ..run }, Seq::empty())
            } else {
                (taken_back(run, Append::Failed), seq![ActionView::Fault])
            }
        } else {
            (run, Seq::empty())
        },
        EventView::LogTimer(logs) => if run.append is Idle {
            let batch = run.pending + logs;
            if batch.len() > 0 {
                (
                    RunView {
                        batch,
                        pending: Seq::empty(),
                        append: Append::InFlight { late: false },
                        ..run
                    },
                    seq![ActionView::Append(batch)],
                )
            } else {
                (run, Seq::empty())
            }
        } else {
            (RunView { pending: run.pending + logs, ..run }, Seq::empty())
        },
        _ => (run, Seq::empty()),
    }
}

/// Writing the result.
pub open spec fn saving(run: RunView, pause: u64) -> Stepped {
    (
        RunView { phase: PhaseView::Saving { late: false, pause }, ..run },
        seq![ActionView::Finish(run.record, run.pending)],
    )
}

/// Children and delegations are over.
pub open spec fn on_drained(run: RunView, completion: CompletionView) -> Stepped {
    let record = RunRecordView { state: RunStateView::Finalizing, ..run.record };
    (
        RunView { record, phase: PhaseView::Sealing { completion }, ..run },
        seq![ActionView::Progress(record, false), ActionView::Seal],
    )
}

/// A batch was written or not after the handler ended: its logs go with the result either way.
pub open spec fn on_late_append(run: RunView) -> Stepped {
    if run.append is InFlight {
        (taken_back(run, Append::Idle), Seq::empty())
    } else {
        (run, Seq::empty())
    }
}

/// The log buffer is sealed: the record gets its completion, its counters and its time, and every
/// log that is not known to be written goes with it.
pub open spec fn on_sealed(
    run: RunView,
    completion: CompletionView,
    tail: Seq<RunLogView>,
    sequence: u64,
    dropped: u64,
    at: Timestamp,
) -> Stepped {
    let sealed = RunView {
        record: RunRecordView {
            last_log_sequence: sequence,
            dropped_log_count: dropped,
            finished_at: Some(at),
            state: RunStateView::Finished(completion),
            ..run.record
        },
        batch: Seq::empty(),
        pending: run.batch + run.pending + tail,
        ..run
    };
    if run.append is InFlight {
        (RunView { phase: PhaseView::Flushing { late: false }, ..sealed }, Seq::empty())
    } else {
        saving(sealed, 1)
    }
}

/// The result was written or not.
pub open spec fn on_saved(run: RunView, pause: u64, ok: bool) -> Stepped {
    if ok {
        (
            RunView { phase: PhaseView::Pruning, ..run },
            seq![ActionView::Progress(run.record, false), ActionView::Prune],
        )
    } else {
        (
            RunView { phase: PhaseView::Pausing { pause }, ..run },
            shown_degraded(run.record, "commit_failed"@).push(ActionView::Pause(pause)),
        )
    }
}

/// Retention was applied or not.
pub open spec fn on_pruned(run: RunView, ok: bool) -> Stepped {
    if ok {
        (RunView { phase: PhaseView::Ended, ..run }, seq![ActionView::Done])
    } else {
        (
            RunView {
                phase: PhaseView::Healing { purpose: Purpose::Cleanup, pause: 1 },
                ..run
            },
            seq![ActionView::Fault, ActionView::Pause(1)],
        )
    }
}

/// What an owner makes of an event: the owner afterwards, and what it does. An event that does
/// not belong to the phase changes nothing.
pub open spec fn stepped(run: RunView, event: EventView) -> Stepped {
    match (run.phase, event) {
        (PhaseView::Waiting, EventView::Begun { reply }) => (
            RunView { reply, phase: PhaseView::Admitting { late: false }, ..run },
            seq![ActionView::Save(run.record)],
        ),
        (PhaseView::Admitting { late }, EventView::ControlTimeout) => if late {
            (run, Seq::empty())
        } else {
            on_overdue(run)
        },
        (PhaseView::Admitting { .. }, EventView::Admitted(result)) => on_admitted(run, result),
        (PhaseView::Healing { purpose, pause }, EventView::Woken) => (
            RunView { phase: PhaseView::Checking { purpose, pause }, ..run },
            seq![ActionView::Check],
        ),
        (PhaseView::Checking { purpose, pause }, EventView::Healthy(ok)) => if ok {
            on_healthy(run, purpose)
        } else {
            let longer = longer_pause(pause);
            (
                RunView { phase: PhaseView::Healing { purpose, pause: longer }, ..run },
                seq![ActionView::Pause(longer)],
            )
        },
        (PhaseView::ReadingBack, EventView::Got(result)) => on_got(run, result),
        (PhaseView::Deciding, EventView::Decided(start)) => on_decided(run, start),
        (PhaseView::Executing { returned }, _) => on_executing(run, returned, event),
        (PhaseView::Draining { .. }, EventView::Appended(_)) => on_late_append(run),
        (PhaseView::Sealing { .. }, EventView::Appended(_)) => on_late_append(run),
        (PhaseView::Draining { completion }, EventView::Drained) => on_drained(run, completion),
        (
            PhaseView::Sealing { completion },
            EventView::Sealed { tail, sequence, dropped, at },
        ) => on_sealed(run, completion, tail, sequence, dropped, at),
        (PhaseView::Flushing { late }, EventView::FinalizationTimeout) => if late {
            (run, Seq::empty())
        } else {
            (
                RunView { phase: PhaseView::Flushing { late: true }, ..run },
                shown_degraded(run.record, "log_flush_timeout"@),
            )
        },
        (PhaseView::Flushing { .. }, EventView::Appended(_)) => saving(
            RunView { append: Append::Idle, ..run },
            1,
        ),
        (PhaseView::Saving { late, pause }, EventView::FinalizationTimeout) => if late {
            (run, Seq::empty())
        } else {
            (
                RunView { phase: PhaseView::Saving { late: true, pause }, ..run },
                shown_degraded(run.record, "finalization_timeout"@),
            )
        },
        (PhaseView::Saving { pause, .. }, EventView::Saved(ok)) => on_saved(run, pause, ok),
        (PhaseView::Pausing { pause }, EventView::Woken) => saving(run, longer_pause(pause)),
        (PhaseView::Pruning, EventView::Pruned(ok)) => on_pruned(run, ok),
        _ => (run, Seq::empty()),
    }
}

/// Whether a pause is within bounds.
pub open spec fn paced(phase: PhaseView) -> bool {
    match phase {
        PhaseView::Healing { pause, .. } => pause <= LONGEST_PAUSE,
        PhaseView::Checking { pause, .. } => pause <= LONGEST_PAUSE,
        PhaseView::Saving { pause, .. } => pause <= LONGEST_PAUSE,
        PhaseView::Pausing { pause } => pause <= LONGEST_PAUSE,
        _ => true,
    }
}

/// A copy of a list of logs.
fn copy_logs(logs: &Vec<RunLog>) -> (copy: Vec<RunLog>)
    ensures
        log_views(copy@) == log_views(logs@),
{
    let mut copy: Vec<RunLog> = Vec::new();
    let mut i: usize = 0;
    while i < logs.len()
        invariant
            i <= logs@.len(),
            copy@.len() == i,
            forall|j: int| 0 <= j < i ==> (#[trigger] copy@[j])@ == logs@[j]@,
        decreases logs@.len() - i,
    {
        copy.push(logs[i].clone());
        i = i + 1;
    }
    assert(log_views(copy@) =~= log_views(logs@));
    copy
}

/// Adds logs behind others.
fn add_logs(logs: &mut Vec<RunLog>, more: Vec<RunLog>)
    ensures
        log_views(final(logs)@) == log_views(old(logs)@) + log_views(more@),
{
    let mut more = more;
    let ghost added = more@;
    logs.append(&mut more);
    assert(logs@ =~= old(logs)@ + added);
    assert(log_views(logs@) =~= log_views(old(logs)@) + log_views(added));
}

/// Adds an action behind others.
fn then_do(actions: &mut Vec<Action>, action: Action)
    ensures
        action_views(final(actions)@) == action_views(old(actions)@).push(action@),
{
    actions.push(action);
    assert(action_views(actions@) =~= action_views(old(actions)@).push(action@));
}

/// No action.
fn nothing() -> (actions: Vec<Action>)
    ensures
        action_views(actions@) == Seq::<ActionView>::empty(),
{
    let actions: Vec<Action> = Vec::new();
    assert(action_views(actions@) =~= Seq::<ActionView>::empty());
    actions
}

/// One action.
fn only(action: Action) -> (actions: Vec<Action>)
    ensures
        action_views(actions@) == seq![action@],
{
    let mut actions = nothing();
    then_do(&mut actions, action);
    assert(action_views(actions@) =~= seq![action@]);
    actions
}

/// A record with a degraded journal.
fn degrade(record: &RunRecord, code: &str) -> (shown: RunRecord)
    ensures
        shown@ == degraded(record@, code@),
{
    let mut shown = record.clone();
    match &record.state {
        RunState::Finished(completion) => {
            let worse = Completion {
                outcome: completion.outcome.clone(),
                output: completion.output.clone(),
                journal: JournalState::Degraded(code.to_string()),
            };
            shown.state = RunState::Finished(worse);
        },
        _ => {},
    }
    shown
}

/// Tells of a fault and shows the real result with a degraded journal.
fn publish_degraded(record: &RunRecord, code: &str) -> (actions: Vec<Action>)
    ensures
        action_views(actions@) == shown_degraded(record@, code@),
{
    let mut actions = only(Action::Fault);
    then_do(&mut actions, Action::Progress(degrade(record, code), false));
    assert(action_views(actions@) =~= shown_degraded(record@, code@));
    actions
}

impl Run {
    pub open spec fn wf(&self) -> bool {
        paced(self.phase@)
    }

    /// The owner of a run that is to be admitted.
    pub fn new(record: RunRecord, skip: bool) -> (run: Self)
        ensures
            run.wf(),
            run@ == new_run(record@, skip),
    {
        let run = Run {
            record,
            skip,
            reply: false,
            batch: Vec::new(),
            pending: Vec::new(),
            append: Append::Idle,
            phase: Phase::Waiting,
        };
        assert(run@.batch =~= Seq::<RunLogView>::empty());
        assert(run@.pending =~= Seq::<RunLogView>::empty());
        run
    }

    /// The reply that is still owed.
    fn owed(&self, answer: Result<(), Error>) -> (actions: Vec<Action>)
        ensures
            action_views(actions@) == owed_reply(
                self@,
                match answer {
                    Ok(()) => Ok(()),
                    Err(e) => Err(e@),
                },
            ),
    {
        if self.reply {
            only(Action::Reply(answer))
        } else {
            nothing()
        }
    }

    fn overdue(self) -> (done: (Run, Vec<Action>))
        ensures
            done.0.wf(),
            (done.0@, action_views(done.1@)) == on_overdue(self@),
    {
        let mut answer = self.owed(Err(Error::AdmissionUnknown(self.record.id)));
        let ghost owed = action_views(answer@);
        let mut actions = only(Action::Fault);
        actions.append(&mut answer);
        assert(action_views(actions@) =~= seq![ActionView::Fault] + owed);
        (Run { reply: false, phase: Phase::Admitting { late: true }, ..self }, actions)
    }

    fn admitted(self, result: Result<RunRecord, Error>) -> (done: (Run, Vec<Action>))
        ensures
            done.0.wf(),
            (done.0@, action_views(done.1@)) == on_admitted(
                self@,
                match result {
                    Ok(record) => Ok(record@),
                    Err(e) => Err(e@),
                },
            ),
    {
        match result {
            Ok(saved) => {
                let told = saved.clone();
                (
                    Run { record: saved, phase: Phase::Deciding, ..self },
                    only(Action::Started(told)),
                )
            },
            Err(error) => {
                let id = self.record.id;
                match error {
                    Error::AlreadySubmitted(which) => {
                        let mut actions = self.owed(Err(Error::AlreadySubmitted(which)));
                        then_do(&mut actions, Action::Done);
                        (Run { reply: false, phase: Phase::Ended, ..self }, actions)
                    },
                    Error::AdmissionFailed(reason) => {
                        let mut answer = self.owed(Err(Error::AdmissionFailed(reason)));
                        let ghost owed = action_views(answer@);
                        then_do(&mut answer, Action::Pause(1));
                        let mut actions = only(Action::Fault);
                        actions.append(&mut answer);
                        assert(action_views(actions@) =~= seq![ActionView::Fault] + owed.push(
                            ActionView::Pause(1),
                        ));
                        (
                            Run {
                                reply: false,
                                phase: Phase::Healing { purpose: Purpose::NotAdmitted, pause: 1 },
                                ..self
                            },
                            actions,
                        )
                    },
                    _ => {
                        let mut answer = self.owed(Err(Error::AdmissionUnknown(id)));
                        let ghost owed = action_views(answer@);
                        then_do(&mut answer, Action::Pause(1));
                        let mut actions = only(Action::Fault);
                        actions.append(&mut answer);
                        assert(action_views(actions@) =~= seq![ActionView::Fault] + owed.push(
                            ActionView::Pause(1),
                        ));
                        (
                            Run {
                                reply: false,
                                phase: Phase::Healing { purpose: Purpose::ReadBack, pause: 1 },
                                ..self
                            },
                            actions,
                        )
                    },
                }
            },
        }
    }

    fn healthy(self, purpose: Purpose) -> (done: (Run, Vec<Action>))
        ensures
            done.0.wf(),
            (done.0@, action_views(done.1@)) == on_healthy(self@, purpose),
    {
        match purpose {
            Purpose::ReadBack => (
                Run { phase: Phase::ReadingBack, ..self },
                only(Action::Read),
            ),
            _ => (Run { phase: Phase::Ended, ..self }, only(Action::Done)),
        }
    }

    fn got(self, result: Result<Option<RunRecord>, Error>) -> (done: (Run, Vec<Action>))
        ensures
            done.0.wf(),
            (done.0@, action_views(done.1@)) == on_got(
                self@,
                match result {
                    Ok(Some(record)) => Ok(Some(record@)),
                    Ok(None) => Ok(None),
                    Err(e) => Err(e@),
                },
            ),
    {
        match result {
            Ok(Some(saved)) => {
                let told = saved.clone();
                let terminal = match saved.completion() {
                    Some(_) => true,
                    None => false,
                };
                if terminal {
                    let mut actions = only(Action::Progress(told, false));
                    then_do(&mut actions, Action::Done);
                    assert(action_views(actions@) =~= seq![
                        ActionView::Progress(told@, false),
                        ActionView::Done,
                    ]);
                    (Run { record: saved, phase: Phase::Ended, ..self }, actions)
                } else {
                    (
                        Run { record: saved, phase: Phase::Deciding, ..self },
                        only(Action::Started(told)),
                    )
                }
            },
            Ok(None) => (Run { phase: Phase::Ended, ..self }, only(Action::Done)),
            Err(_) => (
                Run {
                    phase: Phase::Healing { purpose: Purpose::ReadBack, pause: 1 },
                    ..self
                },
                only(Action::Pause(1)),
            ),
        }
    }

    fn decided(self, start: bool) -> (done: (Run, Vec<Action>))
        ensures
            done.0.wf(),
            (done.0@, action_views(done.1@)) == on_decided(self@, start),
    {
        let mut actions = self.owed(Ok(()));
        then_do(&mut actions, Action::OpenLogs);
        if start && !self.skip {
            then_do(&mut actions, Action::Execute);
            let mut record = self.record;
            record.state = RunState::Running;
            (
                Run {
                    record,
                    skip: self.skip,
                    reply: false,
                    batch: self.batch,
                    pending: self.pending,
                    append: self.append,
                    phase: Phase::Executing { returned: None },
                },
                actions,
            )
        } else {
            then_do(&mut actions, Action::Drain);
            let outcome = if self.skip {
                Outcome::Skipped
            } else {
                Outcome::Cancelled
            };
            (
                Run {
                    reply: false,
                    phase: Phase::Draining { completion: Completion::bare(outcome) },
                    ..self
                },
                actions,
            )
        }
    }

    /// Whether the owner wants to be handed logs now: only then may the log buffer be drained.
    pub fn wants_logs(&self) -> (wants: bool)
        ensures
            wants == wants_logs(self@),
    {
        match (&self.phase, self.append) {
            (Phase::Executing { .. }, Append::Idle) => true,
            _ => false,
        }
    }

    fn take_back(self, append: Append) -> (run: Run)
        ensures
            run@ == taken_back(self@, append),
            run.phase == self.phase,
    {
        let mut pending = self.batch;
        add_logs(&mut pending, self.pending);
        let batch: Vec<RunLog> = Vec::new();
        assert(log_views(batch@) =~= Seq::<RunLogView>::empty());
        Run {
            record: self.record,
            skip: self.skip,
            reply: self.reply,
            batch,
            pending,
            append,
            phase: self.phase,
        }
    }

    fn late_append(self, phase: Phase) -> (done: (Run, Vec<Action>))
        requires
            paced(phase@),
        ensures
            done.0.wf(),
            (done.0@, action_views(done.1@)) == on_late_append(
                RunView { phase: phase@, ..self@ },
            ),
    {
        let run = Run { phase, ..self };
        match run.append {
            Append::InFlight { .. } => (run.take_back(Append::Idle), nothing()),
            _ => (run, nothing()),
        }
    }

    fn executing(self, returned: Option<Completion>, event: Event) -> (done: (Run, Vec<Action>))
        requires
            self.phase is Ended,
        ensures
            done.0.wf(),
            (done.0@, action_views(done.1@)) == on_executing(
                RunView {
                    phase: PhaseView::Executing { returned: completion_view(returned) },
                    ..self@
                },
                completion_view(returned),
                event@,
            ),
    {
        match event {
            Event::Returned(completion) => match returned {
                None => {
                    let uncertain = match &completion.outcome {
                        Outcome::Failed(e) => same_text(e.code.as_str(), "panicked"),
                        _ => false,
                    };
                    let shown = self.record.clone();
                    (
                        Run { phase: Phase::Executing { returned: Some(completion) }, ..self },
                        only(Action::Progress(shown, uncertain)),
                    )
                },
                Some(first) => (
                    Run { phase: Phase::Executing { returned: Some(first) }, ..self },
                    nothing(),
                ),
            },
            Event::TaskEnded(ok) => {
                let completion = match returned {
                    Some(completion) if ok => completion,
                    _ => Completion::bare(
                        Outcome::Failed(JobError::new("panicked", "Execution wrapper panicked")),
                    ),
                };
                (Run { phase: Phase::Draining { completion }, ..self }, only(Action::Drain))
            },
            Event::AppendTimeout => match self.append {
                Append::InFlight { late: false } => (
                    Run {
                        append: Append::InFlight { late: true },
                        phase: Phase::Executing { returned },
                        ..self
                    },
                    only(Action::Fault),
                ),
                _ => (Run { phase: Phase::Executing { returned }, ..self }, nothing()),
            },
            Event::Appended(ok) => match self.append {
                Append::InFlight { .. } => if ok {
                    let batch: Vec<RunLog> = Vec::new();
                    assert(log_views(batch@) =~= Seq::<RunLogView>::empty());
                    (
                        Run {
                            append: Append::Idle,
                            batch,
                            phase: Phase::Executing { returned },
                            ..self
                        },
                        nothing(),
                    )
                } else {
                    let run = self.take_back(Append::Failed);
                    (Run { phase: Phase::Executing { returned }, ..run }, only(Action::Fault))
                },
                _ => (Run { phase: Phase::Executing { returned }, ..self }, nothing()),
            },
            Event::LogTimer(logs) => {
                let ghost before = log_views(self.pending@);
                let mut pending = self.pending;
                add_logs(&mut pending, logs);
                match self.append {
                    Append::Idle if pending.len() > 0 => {
                        let batch = copy_logs(&pending);
                        let rest: Vec<RunLog> = Vec::new();
                        assert(log_views(pending@).len() > 0);
                        assert(log_views(rest@) =~= Seq::<RunLogView>::empty());
                        (
                            Run {
                                record: self.record,
                                skip: self.skip,
                                reply: self.reply,
                                batch: pending,
                                pending: rest,
                                append: Append::InFlight { late: false },
                                phase: Phase::Executing { returned },
                            },
                            only(Action::Append(batch)),
                        )
                    },
                    _ => {
                        proof {
                            if self.append is Idle {
                                assert(log_views(pending@).len() == 0);
                                assert(before =~= log_views(pending@));
                            }
                        }
                        (
                            Run {
                                record: self.record,
                                skip: self.skip,
                                reply: self.reply,
                                batch: self.batch,
                                pending,
                                append: self.append,
                                phase: Phase::Executing { returned },
                            },
                            nothing(),
                        )
                    },
                }
            },
            _ => (Run { phase: Phase::Executing { returned }, ..self }, nothing()),
        }
    }

    fn save(self, pause: u64) -> (done: (Run, Vec<Action>))
        requires
            pause <= LONGEST_PAUSE,
        ensures
            done.0.wf(),
            (done.0@, action_views(done.1@)) == saving(self@, pause),
    {
        let record = self.record.clone();
        let batch = copy_logs(&self.pending);
        (
            Run { phase: Phase::Saving { late: false, pause }, ..self },
            only(Action::Finish(record, batch)),
        )
    }

    fn sealed(
        self,
        completion: Completion,
        tail: Vec<RunLog>,
        sequence: u64,
        dropped: u64,
        at: Timestamp,
    ) -> (done: (Run, Vec<Action>))
        ensures
            done.0.wf(),
            (done.0@, action_views(done.1@)) == on_sealed(
                self@,
                completion@,
                log_views(tail@),
                sequence,
                dropped,
                at,
            ),
    {
        let mut record = self.record;
        record.last_log_sequence = sequence;
        record.dropped_log_count = dropped;
        record.finished_at = Some(at);
        record.state = RunState::Finished(completion);
        let mut pending = self.batch;
        add_logs(&mut pending, self.pending);
        add_logs(&mut pending, tail);
        let batch: Vec<RunLog> = Vec::new();
        assert(log_views(batch@) =~= Seq::<RunLogView>::empty());
        let run = Run {
            record,
            skip: self.skip,
            reply: self.reply,
            batch,
            pending,
            append: self.append,
            phase: self.phase,
        };
        match run.append {
            Append::InFlight { .. } => (
                Run { phase: Phase::Flushing { late: false }, ..run },
                nothing(),
            ),
            _ => run.save(1),
        }
    }

    fn saved(self, pause: u64, ok: bool) -> (done: (Run, Vec<Action>))
        requires
            pause <= LONGEST_PAUSE,
        ensures
            done.0.wf(),
            (done.0@, action_views(done.1@)) == on_saved(self@, pause, ok),
    {
        if ok {
            let mut actions = only(Action::Progress(self.record.clone(), false));
            then_do(&mut actions, Action::Prune);
            assert(action_views(actions@) =~= seq![
                ActionView::Progress(self.record@, false),
                ActionView::Prune,
            ]);
            (Run { phase: Phase::Pruning, ..self }, actions)
        } else {
            let mut actions = publish_degraded(&self.record, "commit_failed");
            then_do(&mut actions, Action::Pause(pause));
            (Run { phase: Phase::Pausing { pause }, ..self }, actions)
        }
    }

    fn drained(self, completion: Completion) -> (done: (Run, Vec<Action>))
        ensures
            done.0.wf(),
            (done.0@, action_views(done.1@)) == on_drained(self@, completion@),
    {
        let mut record = self.record;
        record.state = RunState::Finalizing;
        let mut actions = only(Action::Progress(record.clone(), false));
        then_do(&mut actions, Action::Seal);
        assert(action_views(actions@) =~= seq![
            ActionView::Progress(record@, false),
            ActionView::Seal,
        ]);
        (
            Run {
                record,
                skip: self.skip,
                reply: self.reply,
                batch: self.batch,
                pending: self.pending,
                append: self.append,
                phase: Phase::Sealing { completion },
            },
            actions,
        )
    }

    fn pruned(self, ok: bool) -> (done: (Run, Vec<Action>))
        ensures
            done.0.wf(),
            (done.0@, action_views(done.1@)) == on_pruned(self@, ok),
    {
        if ok {
            (Run { phase: Phase::Ended, ..self }, only(Action::Done))
        } else {
            let mut actions = only(Action::Fault);
            then_do(&mut actions, Action::Pause(1));
            assert(action_views(actions@) =~= seq![ActionView::Fault, ActionView::Pause(1)]);
            (
                Run {
                    phase: Phase::Healing { purpose: Purpose::Cleanup, pause: 1 },
                    ..self
                },
                actions,
            )
        }
    }

    /// Acts on an event: the owner afterwards, and what it does, in order.
    #[verifier::rlimit(30)]
    pub fn step(self, event: Event) -> (done: (Run, Vec<Action>))
        requires
            self.wf(),
        ensures
            done.0.wf(),
            (done.0@, action_views(done.1@)) == stepped(self@, event@),
    {
        let run = Run {
            record: self.record,
            skip: self.skip,
            reply: self.reply,
            batch: self.batch,
            pending: self.pending,
            append: self.append,
            phase: Phase::Ended,
        };
        match (self.phase, event) {
            (Phase::Waiting, Event::Begun { reply }) => {
                let record = run.record.clone();
                (
                    Run { reply, phase: Phase::Admitting { late: false }, ..run },
                    only(Action::Save(record)),
                )
            },
            (Phase::Admitting { late }, Event::ControlTimeout) => {
                if late {
                    (Run { phase: Phase::Admitting { late }, ..run }, nothing())
                } else {
                    run.overdue()
                }
            },
            (Phase::Admitting { .. }, Event::Admitted(result)) => run.admitted(result),
            (Phase::Healing { purpose, pause }, Event::Woken) => (
                Run { phase: Phase::Checking { purpose, pause }, ..run },
                only(Action::Check),
            ),
            (Phase::Checking { purpose, pause }, Event::Healthy(ok)) => {
                if ok {
                    run.healthy(purpose)
                } else {
                    let longer: u64 = next_pause(pause);
                    (
                        Run { phase: Phase::Healing { purpose, pause: longer }, ..run },
                        only(Action::Pause(longer)),
                    )
                }
            },
            (Phase::ReadingBack, Event::Got(result)) => run.got(result),
            (Phase::Deciding, Event::Decided(start)) => run.decided(start),
            (Phase::Executing { returned }, event) => run.executing(returned, event),
            (Phase::Draining { completion }, Event::Appended(_)) => run.late_append(
                Phase::Draining { completion },
            ),
            (Phase::Sealing { completion }, Event::Appended(_)) => run.late_append(
                Phase::Sealing { completion },
            ),
            (Phase::Draining { completion }, Event::Drained) => run.drained(completion),
            (Phase::Sealing { completion }, Event::Sealed { tail, sequence, dropped, at }) => {
                run.sealed(completion, tail, sequence, dropped, at)
            },
            (Phase::Flushing { late }, Event::FinalizationTimeout) => {
                if late {
                    (Run { phase: Phase::Flushing { late }, ..run }, nothing())
                } else {
                    let actions = publish_degraded(&run.record, "log_flush_timeout");
                    (Run { phase: Phase::Flushing { late: true }, ..run }, actions)
                }
            },
            (Phase::Flushing { .. }, Event::Appended(_)) => {
                let run = Run { append: Append::Idle, ..run };
                run.save(1)
            },
            (Phase::Saving { late, pause }, Event::FinalizationTimeout) => {
                if late {
                    (Run { phase: Phase::Saving { late, pause }, ..run }, nothing())
                } else {
                    let actions = publish_degraded(&run.record, "finalization_timeout");
                    (Run { phase: Phase::Saving { late: true, pause }, ..run }, actions)
                }
            },
            (Phase::Saving { pause, .. }, Event::Saved(ok)) => run.saved(pause, ok),
            (Phase::Pausing { pause }, Event::Woken) => {
                let longer: u64 = next_pause(pause);
                run.save(longer)
            },
            (Phase::Pruning, Event::Pruned(ok)) => run.pruned(ok),
            (phase, _) => (Run { phase, ..run }, nothing()),
        }
    }
}

} // verus!
