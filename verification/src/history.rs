//! What holds of every history of a run, whatever events its owner meets.

use vstd::prelude::*;
use crate::model::{
    bare_completion, CompletionView, ErrorView, JournalView, OutcomeView, RunLogView,
    RunRecordView, RunStateView,
};
use crate::runner::{
    degraded, is_uncertain, longer_pause, new_run, pause_after, stepped, ActionView, Append,
    EventView, PhaseView, Purpose, RunView,
};

verus! {

/// The owner of a run after a series of events.
pub open spec fn after_events(start: RunView, events: Seq<EventView>) -> RunView
    decreases events.len(),
{
    if events.len() == 0 {
        start
    } else {
        stepped(after_events(start, events.drop_last()), events.last()).0
    }
}

/// The owner of a run after the first `n` of a series of events.
pub open spec fn owner_at(
    record: RunRecordView,
    skip: bool,
    events: Seq<EventView>,
    n: int,
) -> RunView {
    after_events(new_run(record, skip), events.take(n))
}

/// What the owner of a run does on the event at `i` of a series.
pub open spec fn actions_at(
    record: RunRecordView,
    skip: bool,
    events: Seq<EventView>,
    i: int,
) -> Seq<ActionView> {
    stepped(owner_at(record, skip, events, i), events[i]).1
}

/// How far a run has come.
pub open spec fn stage(phase: PhaseView) -> nat {
    match phase {
        PhaseView::Waiting => 0,
        PhaseView::Admitting { .. } => 1,
        PhaseView::Healing { purpose, .. } => healing_stage(purpose),
        PhaseView::Checking { purpose, .. } => healing_stage(purpose),
        PhaseView::ReadingBack => 2,
        PhaseView::Deciding => 3,
        PhaseView::Executing { .. } => 4,
        PhaseView::Draining { .. } => 5,
        PhaseView::Sealing { .. } => 6,
        PhaseView::Flushing { .. } => 7,
        PhaseView::Saving { .. } => 8,
        PhaseView::Pausing { .. } => 8,
        PhaseView::Pruning => 9,
        PhaseView::Ended => 11,
    }
}

/// How far a run has come that waits for the journal's health.
pub open spec fn healing_stage(purpose: Purpose) -> nat {
    match purpose {
        Purpose::NotAdmitted => 2,
        Purpose::ReadBack => 2,
        Purpose::Cleanup => 10,
    }
}

/// What every owner keeps: a batch of logs is only written while the run executes or waits for
/// it, and else there is none, an answer is only owed until the service decided, a run that
/// executes has no result, and one that is written has.
pub open spec fn sound(run: RunView) -> bool {
    &&& run.append is InFlight ==> 4 <= stage(run.phase) <= 7
    &&& !(run.append is InFlight) || 7 <= stage(run.phase) ==> run.batch.len() == 0
    &&& run.phase is Flushing ==> run.append is InFlight
    &&& run.reply ==> run.phase == (PhaseView::Admitting { late: false }) || run.phase is Deciding
    &&& 7 <= stage(run.phase) <= 10 ==> run.record.terminal()
    &&& run.phase is Executing ==> run.record.state is Running
}

proof fn lemma_step(run: RunView, event: EventView)
    requires
        sound(run),
    ensures
        sound(stepped(run, event).0),
        stage(stepped(run, event).0.phase) >= stage(run.phase),
{
}

proof fn lemma_sound(start: RunView, events: Seq<EventView>)
    requires
        sound(start),
    ensures
        sound(after_events(start, events)),
        stage(after_events(start, events).phase) >= stage(start.phase),
    decreases events.len(),
{
    if events.len() > 0 {
        lemma_sound(start, events.drop_last());
        lemma_step(after_events(start, events.drop_last()), events.last());
    }
}

/// The owner at a later point is the owner at an earlier one after the events between.
proof fn lemma_later(
    record: RunRecordView,
    skip: bool,
    events: Seq<EventView>,
    i: int,
    j: int,
)
    requires
        0 <= i <= j <= events.len(),
    ensures
        sound(owner_at(record, skip, events, i)),
        stage(owner_at(record, skip, events, i).phase) <= stage(
            owner_at(record, skip, events, j).phase,
        ),
        i < j ==> owner_at(record, skip, events, i + 1) == stepped(
            owner_at(record, skip, events, i),
            events[i],
        ).0,
    decreases j - i,
{
    lemma_sound(new_run(record, skip), events.take(i));
    if i < j {
        assert(events.take(i + 1).drop_last() =~= events.take(i));
        assert(events.take(i + 1).last() == events[i]);
        lemma_step(owner_at(record, skip, events, i), events[i]);
        lemma_later(record, skip, events, i + 1, j);
    }
}

/// The handler of a run is started at most once: whatever is retried afterwards, it is not.
pub proof fn handler_starts_at_most_once(
    record: RunRecordView,
    skip: bool,
    events: Seq<EventView>,
    i: int,
    j: int,
)
    requires
        0 <= i < j < events.len(),
        actions_at(record, skip, events, i).contains(ActionView::Execute),
    ensures
        !actions_at(record, skip, events, j).contains(ActionView::Execute),
{
    lemma_later(record, skip, events, i, j);
    lemma_later(record, skip, events, i + 1, j);
    lemma_execute(owner_at(record, skip, events, i), events[i]);
    lemma_later(record, skip, events, j, j);
    lemma_execute(owner_at(record, skip, events, j), events[j]);
}

/// Starting the handler is what leads from the decision to execution.
proof fn lemma_execute(run: RunView, event: EventView)
    ensures
        stepped(run, event).1.contains(ActionView::Execute) ==> run.phase is Deciding && event
            == EventView::Decided(true) && !run.skip && stepped(run, event).0.phase is Executing,
        forall|a: int, b: int|
            0 <= a < b < stepped(run, event).1.len() && stepped(run, event).1[a]
                == ActionView::Execute ==> stepped(run, event).1[b] != ActionView::Execute,
{
}

/// Whether the journal confirmed an admission among the first `n` events.
pub open spec fn confirmed(events: Seq<EventView>, n: int) -> bool {
    exists|k: int| 0 <= k < n && #[trigger] confirms(events[k])
}

/// Whether an event confirms an admission: it was written, or read back.
pub open spec fn confirms(event: EventView) -> bool {
    event matches EventView::Admitted(Ok(_)) || event matches EventView::Got(Ok(Some(_)))
}

proof fn lemma_confirmed(record: RunRecordView, skip: bool, events: Seq<EventView>, n: int)
    requires
        0 <= n <= events.len(),
        3 <= stage(owner_at(record, skip, events, n).phase) <= 10,
    ensures
        confirmed(events, n),
        owner_at(record, skip, events, n).skip == skip,
    decreases n,
{
    lemma_skip(record, skip, events, n);
    if n > 0 {
        lemma_later(record, skip, events, n - 1, n);
        let before = owner_at(record, skip, events, n - 1);
        if 3 <= stage(before.phase) <= 10 {
            lemma_confirmed(record, skip, events, n - 1);
            let k = choose|k: int| 0 <= k < n - 1 && #[trigger] confirms(events[k]);
            assert(0 <= k < n && confirms(events[k]));
        } else {
            assert(confirms(events[n - 1]));
        }
    } else {
        assert(events.take(0) =~= Seq::<EventView>::empty());
    }
}

proof fn lemma_skip(record: RunRecordView, skip: bool, events: Seq<EventView>, n: int)
    requires
        0 <= n <= events.len(),
    ensures
        owner_at(record, skip, events, n).skip == skip,
    decreases n,
{
    if n > 0 {
        lemma_skip(record, skip, events, n - 1);
        lemma_later(record, skip, events, n - 1, n);
    }
}

/// The handler is started only after the journal confirmed the admission, the service agreed, and
/// only where the run does not merely record a collision.
pub proof fn handler_starts_only_when_confirmed(
    record: RunRecordView,
    skip: bool,
    events: Seq<EventView>,
    i: int,
)
    requires
        0 <= i < events.len(),
        actions_at(record, skip, events, i).contains(ActionView::Execute),
    ensures
        !skip,
        events[i] == EventView::Decided(true),
        confirmed(events, i),
{
    lemma_execute(owner_at(record, skip, events, i), events[i]);
    lemma_confirmed(record, skip, events, i);
}

/// Whether a list of actions writes the admission.
pub open spec fn saves(actions: Seq<ActionView>) -> bool {
    exists|k: int| 0 <= k < actions.len() && #[trigger] actions[k] is Save
}

proof fn lemma_save(run: RunView, event: EventView)
    ensures
        saves(stepped(run, event).1) ==> run.phase is Waiting && stepped(
            run,
            event,
        ).0.phase is Admitting,
{
}

/// The admission is written at most once: a result that is not known is read back instead.
pub proof fn admission_is_written_at_most_once(
    record: RunRecordView,
    skip: bool,
    events: Seq<EventView>,
    i: int,
    j: int,
)
    requires
        0 <= i < j < events.len(),
        saves(actions_at(record, skip, events, i)),
    ensures
        !saves(actions_at(record, skip, events, j)),
{
    lemma_later(record, skip, events, i, j);
    lemma_later(record, skip, events, i + 1, j);
    lemma_save(owner_at(record, skip, events, i), events[i]);
    lemma_save(owner_at(record, skip, events, j), events[j]);
}

/// Whether a list of actions answers the submission.
pub open spec fn replies(actions: Seq<ActionView>) -> bool {
    exists|k: int| 0 <= k < actions.len() && #[trigger] actions[k] is Reply
}

proof fn lemma_reply(run: RunView, event: EventView)
    requires
        sound(run),
    ensures
        replies(stepped(run, event).1) ==> run.reply && !stepped(run, event).0.reply,
        !run.reply && stage(run.phase) > 0 ==> !stepped(run, event).0.reply,
        replies(stepped(run, event).1) ==> stage(run.phase) > 0,
{
}

proof fn lemma_no_reply_later(
    record: RunRecordView,
    skip: bool,
    events: Seq<EventView>,
    i: int,
    j: int,
)
    requires
        0 <= i <= j <= events.len(),
        !owner_at(record, skip, events, i).reply,
        stage(owner_at(record, skip, events, i).phase) > 0,
    ensures
        !owner_at(record, skip, events, j).reply,
    decreases j - i,
{
    if i < j {
        lemma_later(record, skip, events, i, i + 1);
        lemma_reply(owner_at(record, skip, events, i), events[i]);
        lemma_no_reply_later(record, skip, events, i + 1, j);
    }
}

/// A submission is answered at most once.
pub proof fn submission_is_answered_at_most_once(
    record: RunRecordView,
    skip: bool,
    events: Seq<EventView>,
    i: int,
    j: int,
)
    requires
        0 <= i < j < events.len(),
        replies(actions_at(record, skip, events, i)),
    ensures
        !replies(actions_at(record, skip, events, j)),
{
    lemma_later(record, skip, events, i, j);
    lemma_reply(owner_at(record, skip, events, i), events[i]);
    lemma_later(record, skip, events, i + 1, j);
    lemma_no_reply_later(record, skip, events, i + 1, j);
    lemma_later(record, skip, events, j, j);
    lemma_reply(owner_at(record, skip, events, j), events[j]);
}

/// A run that told of its end does nothing more.
pub proof fn nothing_follows_the_end(
    record: RunRecordView,
    skip: bool,
    events: Seq<EventView>,
    i: int,
    j: int,
)
    requires
        0 <= i < j < events.len(),
        actions_at(record, skip, events, i).contains(ActionView::Done),
    ensures
        actions_at(record, skip, events, j).len() == 0,
{
    let before = owner_at(record, skip, events, i);
    assert(stepped(before, events[i]).0.phase is Ended);
    lemma_later(record, skip, events, i, j);
    lemma_later(record, skip, events, i + 1, j);
    assert(owner_at(record, skip, events, j).phase is Ended);
}

/// Whether an action asks the journal for something.
pub open spec fn is_call(action: ActionView) -> bool {
    match action {
        ActionView::Save(_) | ActionView::Check | ActionView::Read | ActionView::Append(_)
        | ActionView::Finish(..) | ActionView::Prune => true,
        _ => false,
    }
}

/// Whether an owner waits for an answer of the journal.
pub open spec fn waits_for_journal(run: RunView) -> bool {
    match run.phase {
        PhaseView::Admitting { .. } | PhaseView::Checking { .. } | PhaseView::ReadingBack
        | PhaseView::Saving { .. } | PhaseView::Pruning => true,
        _ => run.append is InFlight,
    }
}

/// Whether an event is the answer that an owner waits for.
pub open spec fn answers(run: RunView, event: EventView) -> bool {
    match event {
        EventView::Admitted(_) => run.phase is Admitting,
        EventView::Healthy(_) => run.phase is Checking,
        EventView::Got(_) => run.phase is ReadingBack,
        EventView::Saved(_) => run.phase is Saving,
        EventView::Pruned(_) => run.phase is Pruning,
        EventView::Appended(_) => run.append is InFlight && 4 <= stage(run.phase) <= 7,
        _ => false,
    }
}

/// Whether a list of actions asks the journal for something.
pub open spec fn calls(actions: Seq<ActionView>) -> bool {
    exists|k: int| 0 <= k < actions.len() && is_call(#[trigger] actions[k])
}

/// An owner has at most one call to the journal under way: it makes one at a time, none while it
/// waits for an answer, and it then waits until the answer comes, however long that takes.
pub proof fn one_call_at_a_time(run: RunView, event: EventView)
    requires
        sound(run),
    ensures
        ({
            let next = stepped(run, event);
            &&& forall|a: int, b: int|
                0 <= a < b < next.1.len() && is_call(#[trigger] next.1[a]) ==> !is_call(
                    #[trigger] next.1[b],
                )
            &&& calls(next.1) ==> !waits_for_journal(run) || answers(run, event)
            &&& waits_for_journal(next.0) <==> calls(next.1) || (waits_for_journal(run)
                && !answers(run, event))
        }),
{
    let next = stepped(run, event);
    match (run.phase, event) {
        (PhaseView::Checking { purpose, .. }, EventView::Healthy(ok)) => {
            if ok && purpose is ReadBack {
                assert(is_call(next.1[0]));
            }
        },
        (PhaseView::Executing { .. }, EventView::LogTimer(logs)) => {
            if run.append is Idle && (run.pending + logs).len() > 0 {
                assert(is_call(next.1[0]));
            }
        },
        (PhaseView::Sealing { .. }, EventView::Sealed { .. }) => {
            if !(run.append is InFlight) {
                assert(is_call(next.1[0]));
            }
        },
        (PhaseView::Saving { .. }, EventView::Saved(ok)) => {
            if ok {
                assert(is_call(next.1[1]));
            }
        },
        (PhaseView::Waiting, EventView::Begun { .. }) => {
            assert(is_call(next.1[0]));
        },
        (PhaseView::Healing { .. }, EventView::Woken) => {
            assert(is_call(next.1[0]));
        },
        (PhaseView::Flushing { .. }, EventView::Appended(_)) => {
            assert(is_call(next.1[0]));
        },
        (PhaseView::Pausing { .. }, EventView::Woken) => {
            assert(is_call(next.1[0]));
        },
        _ => {},
    }
}

/// Every owner that comes about is sound, so that what holds of sound owners holds in every
/// history.
pub proof fn every_owner_is_sound(
    record: RunRecordView,
    skip: bool,
    events: Seq<EventView>,
    n: int,
)
    requires
        0 <= n <= events.len(),
    ensures
        sound(owner_at(record, skip, events, n)),
{
    lemma_later(record, skip, events, n, n);
}

/// Once a run has its result, neither the result nor the logs that go with it change: every
/// attempt writes the same, and the result that is shown meanwhile has the real outcome and
/// output and differs in nothing but the state of the journal.
pub proof fn result_is_preserved(run: RunView, event: EventView)
    requires
        sound(run),
        7 <= stage(run.phase) <= 10,
    ensures
        stepped(run, event).0.record == run.record,
        stepped(run, event).0.pending == run.pending,
        forall|k: int|
            0 <= k < stepped(run, event).1.len() ==> match #[trigger] stepped(run, event).1[k] {
                ActionView::Finish(record, logs) => record == run.record && logs == run.pending,
                ActionView::Progress(record, _) => shows_result(run.record, record),
                _ => true,
            },
{
}

/// Whether a record shows the result of another: it differs in nothing but the journal's state,
/// and there only towards a degraded one.
pub open spec fn shows_result(kept: RunRecordView, shown: RunRecordView) -> bool {
    shown == kept || exists|code: Seq<char>| shown == #[trigger] degraded(kept, code)
}

/// A degraded record keeps outcome, output, identity, counters and times.
pub proof fn degraded_keeps_the_outcome(record: RunRecordView, code: Seq<char>)
    requires
        record.terminal(),
    ensures
        ({
            let shown = degraded(record, code);
            let result = record.completion()->0;
            &&& shown.completion() == Some(
                CompletionView { journal: JournalView::Degraded(code), ..result },
            )
            &&& (RunRecordView { state: record.state, ..shown }) == record
        }),
{
}

/// The result that is written is what the handler returned, if its task ended well, whether
/// cancellation was asked for or not.
pub proof fn returned_completion_becomes_the_result(
    run: RunView,
    completion: CompletionView,
    sealed: EventView,
)
    requires
        run.phase == (PhaseView::Executing { returned: Some(completion) }),
        sealed is Sealed,
    ensures
        ({
            let ended = stepped(run, EventView::TaskEnded(true)).0;
            let drained = stepped(ended, EventView::Drained).0;
            let finished = stepped(drained, sealed).0;
            finished.record.state == RunStateView::Finished(completion)
        }),
{
}

/// After the `n`-th failed attempt to write the result, the owner pauses for the `n`-th pause and
/// then tries again.
pub proof fn failed_save_backs_off(run: RunView, late: bool, n: nat)
    requires
        run.phase == (PhaseView::Saving { late, pause: pause_after(n) }),
    ensures
        ({
            let failed = stepped(run, EventView::Saved(false));
            let again = stepped(failed.0, EventView::Woken);
            &&& failed.1.last() == ActionView::Pause(pause_after(n))
            &&& again.0.phase == (PhaseView::Saving { late: false, pause: pause_after(n + 1) })
            &&& again.1 == seq![ActionView::Finish(run.record, run.pending)]
        }),
{
    assert(pause_after(n + 1) == longer_pause(pause_after(n)));
}

/// After the `n`-th failed health check, the owner pauses for the next pause and checks again.
pub proof fn failed_check_backs_off(run: RunView, purpose: Purpose, n: nat)
    requires
        run.phase == (PhaseView::Checking { purpose, pause: pause_after(n) }),
    ensures
        ({
            let failed = stepped(run, EventView::Healthy(false));
            let again = stepped(failed.0, EventView::Woken);
            &&& failed.1 == seq![ActionView::Pause(pause_after(n + 1))]
            &&& again.0.phase == (PhaseView::Checking { purpose, pause: pause_after(n + 1) })
            &&& again.1 == seq![ActionView::Check]
        }),
{
    assert(pause_after(n + 1) == longer_pause(pause_after(n)));
}

/// Whether a run was surely not admitted: it only waits for the journal's health, and then ends.
spec fn given_up(run: RunView) -> bool {
    match run.phase {
        PhaseView::Healing { purpose, .. } => purpose is NotAdmitted,
        PhaseView::Checking { purpose, .. } => purpose is NotAdmitted,
        PhaseView::Ended => true,
        _ => false,
    }
}

proof fn lemma_given_up(
    record: RunRecordView,
    skip: bool,
    events: Seq<EventView>,
    i: int,
    j: int,
)
    requires
        0 <= i <= j <= events.len(),
        given_up(owner_at(record, skip, events, i)),
    ensures
        given_up(owner_at(record, skip, events, j)),
    decreases j - i,
{
    if i < j {
        lemma_later(record, skip, events, i, i + 1);
        lemma_given_up(record, skip, events, i + 1, j);
    }
}

/// An admission that surely failed, or that was a repetition, has no effects: the handler is not
/// started afterwards.
pub proof fn failed_admission_has_no_effects(
    record: RunRecordView,
    skip: bool,
    events: Seq<EventView>,
    i: int,
    error: ErrorView,
    j: int,
)
    requires
        0 <= i <= j < events.len(),
        owner_at(record, skip, events, i).phase is Admitting,
        events[i] == EventView::Admitted(Err(error)),
        error is AdmissionFailed || error is AlreadySubmitted,
    ensures
        !actions_at(record, skip, events, j).contains(ActionView::Execute),
{
    lemma_later(record, skip, events, i, i + 1);
    lemma_execute(owner_at(record, skip, events, j), events[j]);
    if i < j {
        lemma_given_up(record, skip, events, i + 1, j);
    }
}

/// A result that is shown as durable was written before, or read from the journal.
pub proof fn durable_result_was_written(run: RunView, event: EventView, k: int)
    requires
        sound(run),
        0 <= k < stepped(run, event).1.len(),
        stepped(run, event).1[k] matches ActionView::Progress(shown, _) && shown.completion()
            is Some && shown.completion()->0.journal is Durable,
    ensures
        ({
            ||| run.phase is Saving && event == EventView::Saved(true)
            ||| run.phase is ReadingBack && (event matches EventView::Got(Ok(Some(saved)))
                && stepped(run, event).1[k] == ActionView::Progress(saved, false))
        }),
{
}

/// A handler that panicked leaves its run without a result, and marked as uncertain, until its
/// children and delegations are over.
pub proof fn panicked_handler_waits_for_its_children(
    run: RunView,
    completion: CompletionView,
    event: EventView,
)
    requires
        sound(run),
        run.phase == (PhaseView::Executing { returned: None }),
        is_uncertain(completion),
        !(event is TaskEnded),
    ensures
        ({
            let returned = stepped(run, EventView::Returned(completion));
            let next = stepped(returned.0, event).0;
            &&& returned.1 == seq![ActionView::Progress(run.record, true)]
            &&& !run.record.terminal()
            &&& next.phase is Executing
            &&& !next.record.terminal()
        }),
{
}

/// A run whose handler is not started ends as skipped if it records a collision, and else as
/// cancelled.
pub proof fn run_that_does_not_start_says_why(run: RunView, start: bool, sealed: EventView)
    requires
        run.phase is Deciding,
        !start || run.skip,
        sealed is Sealed,
    ensures
        ({
            let decided = stepped(run, EventView::Decided(start)).0;
            let drained = stepped(decided, EventView::Drained).0;
            let finished = stepped(drained, sealed).0;
            finished.record.completion() == Some(
                bare_completion(
                    if run.skip {
                        OutcomeView::Skipped
                    } else {
                        OutcomeView::Cancelled
                    },
                ),
            )
        }),
{
}

/// Every fault that degrades the journal is told to the service with the result: whatever shows a
/// degraded journal closes admission.
pub proof fn degraded_result_comes_with_a_fault(run: RunView, event: EventView, k: int)
    requires
        sound(run),
        7 <= stage(run.phase) <= 10,
        0 <= k < stepped(run, event).1.len(),
        stepped(run, event).1[k] is Progress,
        !(run.phase is Saving && event == EventView::Saved(true)),
    ensures
        k > 0,
        stepped(run, event).1[k - 1] == ActionView::Fault,
{
}

/// Whether the journal gives every record back under the job it was written for.
pub open spec fn journal_keeps_job(events: Seq<EventView>, job: Seq<char>) -> bool {
    forall|i: int|
        0 <= i < events.len() ==> match #[trigger] events[i] {
            EventView::Admitted(Ok(saved)) => saved.job == job,
            EventView::Got(Ok(Some(saved))) => saved.job == job,
            _ => true,
        }
}

proof fn lemma_job(record: RunRecordView, skip: bool, events: Seq<EventView>, n: int)
    requires
        0 <= n <= events.len(),
        journal_keeps_job(events, record.job),
    ensures
        owner_at(record, skip, events, n).record.job == record.job,
    decreases n,
{
    if n > 0 {
        lemma_job(record, skip, events, n - 1);
        lemma_later(record, skip, events, n - 1, n);
    }
}

/// Whatever an owner tells the service names the job that its run was admitted for.
pub proof fn reports_keep_the_job(
    record: RunRecordView,
    skip: bool,
    events: Seq<EventView>,
    i: int,
    k: int,
)
    requires
        0 <= i < events.len(),
        0 <= k < actions_at(record, skip, events, i).len(),
        journal_keeps_job(events, record.job),
    ensures
        match actions_at(record, skip, events, i)[k] {
            ActionView::Started(told) => told.job == record.job,
            ActionView::Progress(told, _) => told.job == record.job,
            ActionView::Finish(written, _) => written.job == record.job,
            _ => true,
        },
{
    lemma_job(record, skip, events, i);
}

/// Whether a list of actions answers the submission exactly once, with a given answer.
pub open spec fn replies_once(actions: Seq<ActionView>, answer: Result<(), ErrorView>) -> bool {
    exists|k: int|
        0 <= k < actions.len() && #[trigger] actions[k] == ActionView::Reply(answer) && (forall|
            j: int,
        |
            0 <= j < actions.len() && j != k ==> !(#[trigger] actions[j] is Reply))
}

/// No owner drops an answer that it owes: where it stops owing one, it gives exactly one, and as
/// long as it gives none it goes on owing it.
pub proof fn owed_answer_is_given(run: RunView, event: EventView)
    requires
        run.reply,
        !(run.phase is Waiting),
    ensures
        !stepped(run, event).0.reply ==> exists|answer: Result<(), ErrorView>| #[trigger]
            replies_once(stepped(run, event).1, answer),
        stepped(run, event).0.reply ==> !replies(stepped(run, event).1),
{
    let actions = stepped(run, event).1;
    if !stepped(run, event).0.reply {
        match (run.phase, event) {
            (PhaseView::Deciding, EventView::Decided(start)) => {
                assert(actions[0] == ActionView::Reply(Ok(())));
                assert(replies_once(actions, Ok(())));
            },
            (PhaseView::Admitting { .. }, EventView::ControlTimeout) => {
                let answer = Err::<(), ErrorView>(ErrorView::AdmissionUnknown(run.record.id));
                assert(actions[1] == ActionView::Reply(answer));
                assert(replies_once(actions, answer));
            },
            (PhaseView::Admitting { .. }, EventView::Admitted(Err(error))) => {
                failed_admission_is_answered(run, error);
            },
            _ => {},
        }
    }
}

/// A submission that waits while its admission fails is told the very failure if that rules the
/// run out, and else that the result is not known.
pub proof fn failed_admission_is_answered(run: RunView, error: ErrorView)
    requires
        run.reply,
        run.phase is Admitting,
    ensures
        error is AlreadySubmitted || error is AdmissionFailed ==> replies_once(
            stepped(run, EventView::Admitted(Err(error))).1,
            Err(error),
        ),
        !(error is AlreadySubmitted) && !(error is AdmissionFailed) ==> replies_once(
            stepped(run, EventView::Admitted(Err(error))).1,
            Err(ErrorView::AdmissionUnknown(run.record.id)),
        ),
        !stepped(run, EventView::Admitted(Err(error))).0.reply,
{
    let actions = stepped(run, EventView::Admitted(Err(error))).1;
    if error is AlreadySubmitted {
        assert(actions[0] == ActionView::Reply(Err(error)));
    } else {
        assert(actions[1] is Reply);
    }
}

/// A submission that waits while its admission takes too long is told, once, that the result is
/// not known.
pub proof fn overdue_admission_is_answered(run: RunView)
    requires
        run.reply,
        run.phase == (PhaseView::Admitting { late: false }),
    ensures
        replies_once(
            stepped(run, EventView::ControlTimeout).1,
            Err(ErrorView::AdmissionUnknown(run.record.id)),
        ),
        !stepped(run, EventView::ControlTimeout).0.reply,
{
    assert(stepped(run, EventView::ControlTimeout).1[1] is Reply);
}

/// An owner that was handed an answer port and has not used it still holds it.
proof fn lemma_still_owed(record: RunRecordView, skip: bool, events: Seq<EventView>, n: int)
    requires
        0 < n <= events.len(),
        events[0] == (EventView::Begun { reply: true }),
        forall|j: int|
            0 <= j < n ==> !replies(#[trigger] actions_at(record, skip, events, j)),
    ensures
        owner_at(record, skip, events, n).reply,
        !(owner_at(record, skip, events, n).phase is Waiting),
    decreases n,
{
    lemma_later(record, skip, events, n - 1, n);
    if n == 1 {
        assert(events.take(0) =~= Seq::<EventView>::empty());
    } else {
        lemma_still_owed(record, skip, events, n - 1);
        let before = owner_at(record, skip, events, n - 1);
        let actions = actions_at(record, skip, events, n - 1);
        owed_answer_is_given(before, events[n - 1]);
        if !owner_at(record, skip, events, n).reply {
            let answer = choose|answer: Result<(), ErrorView>| #[trigger]
                replies_once(actions, answer);
            let k = choose|k: int|
                0 <= k < actions.len() && #[trigger] actions[k] == ActionView::Reply(answer) && (
                forall|j: int|
                    0 <= j < actions.len() && j != k ==> !(#[trigger] actions[j] is Reply));
            assert(actions[k] is Reply);
        }
    }
}

/// A submission that waits is told of its success: whatever happened before, if it got no answer
/// until the service decides, it is then told exactly once that it was admitted, whether or not
/// the handler may start.
pub proof fn waiting_submission_is_told_of_success(
    record: RunRecordView,
    skip: bool,
    events: Seq<EventView>,
    i: int,
)
    requires
        0 < i < events.len(),
        events[0] == (EventView::Begun { reply: true }),
        forall|j: int|
            0 <= j < i ==> !replies(#[trigger] actions_at(record, skip, events, j)),
        owner_at(record, skip, events, i).phase is Deciding,
        events[i] is Decided,
    ensures
        replies_once(actions_at(record, skip, events, i), Ok(())),
{
    lemma_still_owed(record, skip, events, i);
    assert(actions_at(record, skip, events, i)[0] == ActionView::Reply(Ok(())));
}

/// A submission that waits is answered: in every history, once the owner is neither writing the
/// admission in time nor waiting for the service's decision, the answer was given.
pub proof fn waiting_submission_is_answered(
    record: RunRecordView,
    skip: bool,
    events: Seq<EventView>,
    n: int,
)
    requires
        0 < n <= events.len(),
        events[0] == (EventView::Begun { reply: true }),
        owner_at(record, skip, events, n).phase != (PhaseView::Admitting { late: false }),
        !(owner_at(record, skip, events, n).phase is Deciding),
    ensures
        exists|j: int| 0 <= j < n && replies(#[trigger] actions_at(record, skip, events, j)),
{
    if forall|j: int| 0 <= j < n ==> !replies(#[trigger] actions_at(record, skip, events, j)) {
        lemma_still_owed(record, skip, events, n);
        lemma_later(record, skip, events, n, n);
    }
}

/// What a submission is told is true: a success only once the journal confirmed the admission, a
/// definite failure only as the journal reported it, and else that the result is not known, with
/// the identifier to ask for.
pub proof fn submission_is_told_the_truth(
    record: RunRecordView,
    skip: bool,
    events: Seq<EventView>,
    i: int,
    k: int,
)
    requires
        0 <= i < events.len(),
        0 <= k < actions_at(record, skip, events, i).len(),
    ensures
        match actions_at(record, skip, events, i)[k] {
            ActionView::Reply(Ok(())) => confirmed(events, i),
            ActionView::Reply(Err(e)) => e == ErrorView::AdmissionUnknown(record.id)
                || events[i] == EventView::Admitted(Err(e)) && (e is AlreadySubmitted
                || e is AdmissionFailed),
            _ => true,
        },
{
    let before = owner_at(record, skip, events, i);
    lemma_later(record, skip, events, i, i);
    if before.phase is Deciding {
        lemma_confirmed(record, skip, events, i);
    }
    if stage(before.phase) < 3 {
        lemma_unconfirmed(record, skip, events, i);
    }
}

/// Until an admission is confirmed, the owner holds the record it started with.
proof fn lemma_unconfirmed(record: RunRecordView, skip: bool, events: Seq<EventView>, n: int)
    requires
        0 <= n <= events.len(),
        stage(owner_at(record, skip, events, n).phase) < 3,
    ensures
        owner_at(record, skip, events, n).record == record,
    decreases n,
{
    if n > 0 {
        lemma_later(record, skip, events, n - 1, n);
        lemma_unconfirmed(record, skip, events, n - 1);
    } else {
        assert(events.take(0) =~= Seq::<EventView>::empty());
    }
}

/// The logs that an event hands to the owner.
pub open spec fn handed_by(event: EventView) -> Seq<RunLogView> {
    match event {
        EventView::LogTimer(logs) => logs,
        EventView::Sealed { tail, .. } => tail,
        _ => Seq::empty(),
    }
}

/// The logs that the first `n` events hand to the owner, in order.
pub open spec fn handed(events: Seq<EventView>, n: int) -> Seq<RunLogView>
    decreases n,
{
    if n <= 0 {
        Seq::empty()
    } else {
        handed(events, n - 1) + handed_by(events[n - 1])
    }
}

/// The batch that some actions write, if any, or else a given one.
pub open spec fn batch_of(actions: Seq<ActionView>, before: Seq<RunLogView>) -> Seq<RunLogView>
    decreases actions.len(),
{
    if actions.len() == 0 {
        before
    } else {
        match actions.last() {
            ActionView::Append(logs) => logs,
            _ => batch_of(actions.drop_last(), before),
        }
    }
}

/// The last batch of logs that an owner gave the journal to write, on the first `n` events.
pub open spec fn last_batch(
    record: RunRecordView,
    skip: bool,
    events: Seq<EventView>,
    n: int,
) -> Seq<RunLogView>
    decreases n,
{
    if n <= 0 {
        Seq::empty()
    } else {
        batch_of(
            actions_at(record, skip, events, n - 1),
            last_batch(record, skip, events, n - 1),
        )
    }
}

/// Whether the event at `i` confirms a batch while the run executes. One that is confirmed later
/// is not counted: its logs are written once more, with the result.
pub open spec fn confirms_batch(
    record: RunRecordView,
    skip: bool,
    events: Seq<EventView>,
    i: int,
) -> bool {
    let run = owner_at(record, skip, events, i);
    events[i] == EventView::Appended(true) && run.phase is Executing && run.append is InFlight
}

/// The logs of the batches that the journal confirmed among the first `n` events, in order.
pub open spec fn written(
    record: RunRecordView,
    skip: bool,
    events: Seq<EventView>,
    n: int,
) -> Seq<RunLogView>
    decreases n,
{
    if n <= 0 {
        Seq::empty()
    } else if confirms_batch(record, skip, events, n - 1) {
        written(record, skip, events, n - 1) + last_batch(record, skip, events, n - 1)
    } else {
        written(record, skip, events, n - 1)
    }
}

/// Whether logs are handed over only when they can be: from the buffer while the run executes, and
/// the rest of it once it was asked to be sealed.
pub open spec fn logs_come_in_time(
    record: RunRecordView,
    skip: bool,
    events: Seq<EventView>,
) -> bool {
    forall|i: int|
        0 <= i < events.len() ==> match #[trigger] events[i] {
            EventView::LogTimer(_) => owner_at(record, skip, events, i).phase is Executing,
            EventView::Sealed { .. } => owner_at(record, skip, events, i).phase is Sealing,
            _ => true,
        }
}

/// Every log that was handed over is confirmed, in the batch that is being written, or pending.
proof fn lemma_no_log_is_lost(
    record: RunRecordView,
    skip: bool,
    events: Seq<EventView>,
    n: int,
)
    requires
        0 <= n <= events.len(),
        logs_come_in_time(record, skip, events),
    ensures
        ({
            let run = owner_at(record, skip, events, n);
            &&& handed(events, n) == written(record, skip, events, n) + run.batch + run.pending
            &&& run.append is InFlight && stage(run.phase) < 7 ==> run.batch == last_batch(
                record,
                skip,
                events,
                n,
            )
        }),
    decreases n,
{
    let run = owner_at(record, skip, events, n);
    if n == 0 {
        assert(events.take(0) =~= Seq::<EventView>::empty());
        assert(handed(events, n) =~= written(record, skip, events, n) + run.batch + run.pending);
    } else {
        lemma_no_log_is_lost(record, skip, events, n - 1);
        lemma_later(record, skip, events, n - 1, n);
        let before = owner_at(record, skip, events, n - 1);
        let event = events[n - 1];
        let sent = last_batch(record, skip, events, n - 1);
        lemma_batch(before, event, sent);
        lemma_sum(
            written(record, skip, events, n - 1),
            before.batch,
            before.pending,
            handed_by(event),
            if confirms_batch(record, skip, events, n - 1) {
                sent
            } else {
                Seq::empty()
            },
            run.batch,
            run.pending,
        );
    }
}

/// What was written and what was held, with what came, is what is written and what is held then.
proof fn lemma_sum(
    written: Seq<RunLogView>,
    batch: Seq<RunLogView>,
    pending: Seq<RunLogView>,
    came: Seq<RunLogView>,
    confirmed: Seq<RunLogView>,
    next_batch: Seq<RunLogView>,
    next_pending: Seq<RunLogView>,
)
    requires
        batch + pending + came == confirmed + next_batch + next_pending,
    ensures
        (written + batch + pending) + came == (written + confirmed) + next_batch + next_pending,
        written + Seq::<RunLogView>::empty() == written,
{
    assert((written + batch + pending) + came =~= written + (batch + pending + came));
    assert((written + confirmed) + next_batch + next_pending =~= written + (confirmed + next_batch
        + next_pending));
    assert(written + Seq::<RunLogView>::empty() =~= written);
}

/// A step keeps the logs that it does not confirm, and begins a batch only by writing it.
proof fn lemma_batch(run: RunView, event: EventView, sent: Seq<RunLogView>)
    requires
        sound(run),
        run.append is InFlight && stage(run.phase) < 7 ==> run.batch == sent,
        event is LogTimer ==> run.phase is Executing,
        event is Sealed ==> run.phase is Sealing,
    ensures
        ({
            let next = stepped(run, event).0;
            let confirmed = run.phase is Executing && run.append is InFlight && event
                == EventView::Appended(true);
            &&& run.batch + run.pending + handed_by(event) == (if confirmed {
                sent
            } else {
                Seq::empty()
            }) + next.batch + next.pending
            &&& next.append is InFlight && stage(next.phase) < 7 ==> next.batch == batch_of(
                stepped(run, event).1,
                sent,
            )
        }),
{
    let next = stepped(run, event).0;
    let actions = stepped(run, event).1;
    reveal_with_fuel(batch_of, 4);
    if run.phase is Executing && run.append is InFlight && event == EventView::Appended(true) {
        assert(run.batch + run.pending + handed_by(event) =~= sent + next.batch + next.pending);
    } else {
        assert(run.batch + run.pending + handed_by(event) =~= Seq::<RunLogView>::empty()
            + next.batch + next.pending);
    }
}

/// No log is lost on the way to the journal: with the result, an owner writes every log that it was
/// handed and that no confirmed batch has, in order.
pub proof fn accepted_logs_reach_the_journal(
    record: RunRecordView,
    skip: bool,
    events: Seq<EventView>,
    i: int,
    k: int,
)
    requires
        0 <= i < events.len(),
        0 <= k < actions_at(record, skip, events, i).len(),
        actions_at(record, skip, events, i)[k] is Finish,
        logs_come_in_time(record, skip, events),
    ensures
        actions_at(record, skip, events, i)[k] matches ActionView::Finish(_, logs) && handed(
            events,
            i + 1,
        ) == written(record, skip, events, i + 1) + logs,
{
    lemma_no_log_is_lost(record, skip, events, i + 1);
    lemma_later(record, skip, events, i, i + 1);
    lemma_later(record, skip, events, i + 1, i + 1);
    let next = owner_at(record, skip, events, i + 1);
    let confirmed = written(record, skip, events, i + 1);
    lemma_finish(owner_at(record, skip, events, i), events[i], k);
    lemma_without_batch(confirmed, next.batch, next.pending);
}

proof fn lemma_without_batch(
    written: Seq<RunLogView>,
    batch: Seq<RunLogView>,
    pending: Seq<RunLogView>,
)
    requires
        batch.len() == 0,
    ensures
        written + batch + pending == written + pending,
        written + pending + Seq::<RunLogView>::empty() == written + pending,
{
    assert(written + batch + pending =~= written + pending);
    assert(written + pending + Seq::<RunLogView>::empty() =~= written + pending);
}

/// What is written as the result is what the owner then holds.
proof fn lemma_finish(run: RunView, event: EventView, k: int)
    requires
        sound(run),
        0 <= k < stepped(run, event).1.len(),
        stepped(run, event).1[k] is Finish,
    ensures
        stepped(run, event).0.phase is Saving,
        stepped(run, event).1[k] == ActionView::Finish(
            stepped(run, event).0.record,
            stepped(run, event).0.pending,
        ),
{
}

/// Whether an owner wrote a result with some logs on one of the first `n` events.
pub open spec fn finished_with(
    record: RunRecordView,
    skip: bool,
    events: Seq<EventView>,
    n: int,
    result: RunRecordView,
    logs: Seq<RunLogView>,
) -> bool {
    exists|j: int|
        0 <= j < n && (#[trigger] actions_at(record, skip, events, j)).contains(
            ActionView::Finish(result, logs),
        )
}

proof fn lemma_saving(record: RunRecordView, skip: bool, events: Seq<EventView>, n: int)
    requires
        0 <= n <= events.len(),
        owner_at(record, skip, events, n).phase is Saving,
    ensures
        ({
            let run = owner_at(record, skip, events, n);
            finished_with(record, skip, events, n, run.record, run.pending)
        }),
    decreases n,
{
    let run = owner_at(record, skip, events, n);
    if n == 0 {
        assert(events.take(0) =~= Seq::<EventView>::empty());
    } else {
        lemma_later(record, skip, events, n - 1, n);
        let before = owner_at(record, skip, events, n - 1);
        let actions = actions_at(record, skip, events, n - 1);
        if before.phase is Saving {
            lemma_saving(record, skip, events, n - 1);
            assert(run.record == before.record && run.pending == before.pending);
            let j = choose|j: int|
                0 <= j < n - 1 && (#[trigger] actions_at(record, skip, events, j)).contains(
                    ActionView::Finish(run.record, run.pending),
                );
            assert(0 <= j < n && actions_at(record, skip, events, j).contains(
                ActionView::Finish(run.record, run.pending),
            ));
        } else {
            assert(actions[0] == ActionView::Finish(run.record, run.pending));
            assert(actions.contains(ActionView::Finish(run.record, run.pending)));
        }
    }
}

/// A durable result comes with its logs: when the journal has confirmed the result, it has confirmed
/// every log that the owner was handed, in a batch or with the result.
pub proof fn durable_result_has_every_log(
    record: RunRecordView,
    skip: bool,
    events: Seq<EventView>,
    i: int,
)
    requires
        0 <= i < events.len(),
        events[i] == EventView::Saved(true),
        owner_at(record, skip, events, i).phase is Saving,
        logs_come_in_time(record, skip, events),
    ensures
        ({
            let run = owner_at(record, skip, events, i);
            &&& actions_at(record, skip, events, i).contains(
                ActionView::Progress(run.record, false),
            )
            &&& finished_with(record, skip, events, i, run.record, run.pending)
            &&& handed(events, i + 1) == written(record, skip, events, i + 1) + run.pending
        }),
{
    let run = owner_at(record, skip, events, i);
    let confirmed = written(record, skip, events, i + 1);
    lemma_no_log_is_lost(record, skip, events, i);
    lemma_later(record, skip, events, i, i);
    lemma_saving(record, skip, events, i);
    assert(actions_at(record, skip, events, i)[0] == ActionView::Progress(run.record, false));
    lemma_without_batch(confirmed, run.batch, run.pending);
}

} // verus!
