//! What single calls change, stated on what was there before and what is there after.

use vstd::prelude::*;
use vstd::utf8::encode_utf8;
use crate::admission::{Launch, Submission};
use crate::encoding::Bounded;
use crate::ids::{spells, RunId};
use crate::job::{Decoding, Entrance, Job};
use crate::laws::snapshots::{looked_into, revision_is_noted, snapshots_are_refused_unseen};
use crate::logging::{unquoted_end, unquoted_start, Fields, Ingress, Limited, LogPolicy, RunVisitor};
use crate::maintenance::{Maintenance, UpkeepAction, UpkeepEvent};
use crate::model::{
    log_views, CancelResult, Cancellation, Error, RunLog, RunRecord, RunRecordView, RunStateView,
};
use crate::reconcile::{answer_view, candidate_views, reconciled, Candidate};
use crate::service::{handled, Handled, Msg};
use crate::state::{ActiveView, State, StateView};
use crate::time::{Reading, Timestamp};

verus! {

// ---- Bounded texts ----

/// A piece is added to a bounded text whole if it still fits, and else refused and remembered.
pub proof fn pieces_are_added_whole(out: &mut Limited, piece: &str, written: bool)
    requires
        call_ensures(Limited::write_str, (out, piece), written),
    ensures
        written <==> encode_utf8(piece@).len() <= old(out).remaining,
        written ==> final(out).text@ == old(out).text@ + piece@,
        written ==> final(out).remaining == old(out).remaining - encode_utf8(piece@).len(),
        written ==> final(out).overflow == old(out).overflow,
        !written ==> final(out).text@ == old(out).text@,
        !written ==> final(out).remaining == old(out).remaining,
        !written ==> final(out).overflow,
{
}

/// A chunk is added to a sink whole if it still fits, and else refused and remembered.
pub proof fn chunks_are_added_whole(sink: &mut Bounded, chunk: &[u8], written: Option<usize>)
    requires
        call_ensures(Bounded::write, (sink, chunk), written),
    ensures
        final(sink).limit == old(sink).limit,
        old(sink).bytes@.len() + chunk@.len() <= old(sink).limit ==> {
            &&& written == Some(chunk@.len() as usize)
            &&& final(sink).bytes@ == old(sink).bytes@ + chunk@
            &&& final(sink).overflow == old(sink).overflow
        },
        old(sink).bytes@.len() + chunk@.len() > old(sink).limit ==> {
            &&& written is None
            &&& final(sink).bytes@ == old(sink).bytes@
            &&& final(sink).overflow
        },
{
}

/// A field is captured if the policy allows its name, and then replaces an earlier one of that
/// name; a text that was cut off marks the whole event. Any other field leaves no trace.
pub proof fn allowed_fields_are_captured<'a>(
    fields: &mut Fields<'a>,
    name: &str,
    out: Limited,
)
    requires
        call_ensures(Fields::<'a>::record, (fields, name, out), ()),
    ensures
        old(fields).allow@.contains_key(name@) ==> final(fields).values@
            == old(fields).values@.insert(name@, out.text@) && final(fields).overflow == (
        old(fields).overflow || out.overflow),
        !old(fields).allow@.contains_key(name@) ==> final(fields).values@ == old(fields).values@
            && final(fields).overflow == old(fields).overflow,
        final(fields).level == old(fields).level,
        final(fields).target == old(fields).target,
        final(fields).max == old(fields).max,
{
}

/// The run of a span is read from one field only, by its name.
pub proof fn run_is_read_from_its_field(visitor: &mut RunVisitor, field: &str, value: &str)
    requires
        call_ensures(RunVisitor::see_str, (visitor, field, value), ()),
    ensures
        field@ != "job_run_id"@ ==> final(visitor).found == old(visitor).found,
        field@ == "job_run_id"@ ==> (final(visitor).found matches Some(id) ==> spells(
            value@,
            id.bits,
        )),
{
}

/// The debug form of the field is read without the quotes around it.
pub proof fn run_is_read_without_quotes(visitor: &mut RunVisitor, field: &str, shown: &str)
    requires
        call_ensures(RunVisitor::see_debug, (visitor, field, shown), ()),
    ensures
        field@ != "job_run_id"@ ==> final(visitor).found == old(visitor).found,
        field@ == "job_run_id"@ ==> (final(visitor).found matches Some(id) ==> spells(
            unquoted_end(unquoted_start(shown@)),
            id.bits,
        )),
{
}

/// Closing an entrance leaves it closed.
pub proof fn entrance_stays_closed(entrance: &mut Entrance)
    requires
        call_ensures(Entrance::close, (entrance,), ()),
    ensures
        final(entrance).closed,
{
}

// ---- Capture ----

/// A batch is the oldest entries that wait, a hundred and twenty-eight at most, and what is left
/// stays behind.
pub proof fn drained_batch_is_the_oldest(
    ingress: &mut Ingress,
    policy: &LogPolicy,
    id: RunId,
    logs: Vec<RunLog>,
)
    requires
        old(ingress)@.runs.contains_key(id@),
        call_ensures(Ingress::drain, (ingress, policy, id), logs),
    ensures
        log_views(logs@) + final(ingress)@.runs[id@].queue == old(ingress)@.runs[id@].queue,
        logs@.len() == 128 || final(ingress)@.runs[id@].queue.len() == 0,
        logs@.len() <= 128,
        final(ingress)@.runs[id@].sequence == old(ingress)@.runs[id@].sequence,
        final(ingress)@.runs[id@].dropped == old(ingress)@.runs[id@].dropped,
{
    assert(log_views(logs@).len() == logs@.len());
    assert(log_views(logs@) + final(ingress)@.runs[id@].queue =~= old(ingress)@.runs[id@].queue);
}

/// Sealing hands out all that waits, the number of the last event and the number of those that
/// were dropped, in this order, and closes the buffer.
pub proof fn sealing_hands_out_the_rest(
    ingress: &mut Ingress,
    policy: &LogPolicy,
    id: RunId,
    rest: (Vec<RunLog>, u64, u64),
)
    requires
        old(ingress)@.runs.contains_key(id@),
        call_ensures(Ingress::seal, (ingress, policy, id), rest),
    ensures
        log_views(rest.0@) == old(ingress)@.runs[id@].queue,
        rest.1 == old(ingress)@.runs[id@].sequence,
        rest.2 == old(ingress)@.runs[id@].dropped,
        final(ingress)@.runs[id@].sealed,
        final(ingress)@.runs[id@].queue.len() == 0,
{
}

/// An event is heard exactly if its run has an open buffer. One that is not leaves no trace; one
/// that is takes the next number of its run, and its entry waits last or is counted as dropped.
/// No event touches another run.
pub proof fn noting_numbers_the_event<F: FnOnce(&RunLog) -> usize>(
    ingress: &mut Ingress,
    policy: &LogPolicy,
    id: RunId,
    fields: Fields,
    time: Timestamp,
    measure: F,
    heard: bool,
    other: u128,
)
    requires
        call_ensures(Ingress::note::<F>, (ingress, policy, id, fields, time, measure), heard),
        old(ingress).wf(*policy),
    ensures
        heard <==> old(ingress)@.runs.contains_key(id@) && !old(ingress)@.runs[id@].sealed,
        !heard ==> final(ingress)@ == old(ingress)@,
        other != id@ && old(ingress)@.runs.contains_key(other) ==> final(ingress)@.runs[other]
            == old(ingress)@.runs[other],
        heard && old(ingress)@.runs[id@].sequence < u64::MAX ==> {
            let before = old(ingress)@.runs[id@];
            let after = final(ingress)@.runs[id@];
            &&& after.sequence == before.sequence + 1
            &&& after.queue == before.queue && after.dropped == before.dropped + 1
                || after.queue.len() == before.queue.len() + 1 && after.queue.drop_last()
                == before.queue && after.dropped == before.dropped && after.queue.last().run_id
                == id@ && after.queue.last().sequence == after.sequence && after.queue.last().time
                == time && after.queue.last().target == fields.target@
        },
{
    if heard {
        let before = old(ingress)@.runs[id@];
        let after = final(ingress)@.runs[id@];
        assert(crate::logging::buffer_fits(*policy, id@, before));
        if after.queue.len() > before.queue.len() {
            assert(after.queue.drop_last() =~= before.queue);
        }
    }
}

/// A run that is registered has an open buffer that has seen nothing.
pub proof fn registering_opens_a_buffer(ingress: &mut Ingress, policy: &LogPolicy, id: RunId)
    requires
        call_ensures(Ingress::register, (ingress, policy, id), ()),
    ensures
        final(ingress)@.runs.contains_key(id@),
        !final(ingress)@.runs[id@].sealed,
        final(ingress)@.runs[id@].queue.len() == 0,
        final(ingress)@.runs[id@].sequence == 0,
        final(ingress)@.runs[id@].dropped == 0,
        final(ingress)@.runs[id@].accepted == 0,
        final(ingress)@.runs[id@].bytes == 0,
{
}

/// A run that is removed has no buffer, and every other keeps its own.
pub proof fn removing_gives_the_buffer_up(
    ingress: &mut Ingress,
    policy: &LogPolicy,
    id: RunId,
    other: u128,
)
    requires
        call_ensures(Ingress::remove, (ingress, policy, id), ()),
    ensures
        !final(ingress)@.runs.contains_key(id@),
        other != id@ ==> final(ingress)@.runs.contains_key(other)
            == old(ingress)@.runs.contains_key(other),
        other != id@ && old(ingress)@.runs.contains_key(other) ==> final(ingress)@.runs[other]
            == old(ingress)@.runs[other],
{
}

// ---- Services ----

/// Cancelling an active run that can be cancelled, is admitted and is not yet ending marks it;
/// every other request changes nothing, and says why.
pub proof fn cancelling_marks_the_run(
    state: &mut State,
    id: RunId,
    answer: Option<CancelResult>,
)
    requires
        call_ensures(State::cancel, (state, id), answer),
    ensures
        ({
            let run = old(state)@.active[id@];
            let ending = run.record.state is Finished || run.record.state is Finalizing;
            &&& answer is None <==> !old(state)@.active.contains_key(id@)
            &&& answer == Some(CancelResult::AlreadyFinished) <==> answer is Some && ending
            &&& answer == Some(CancelResult::AdmissionPending) <==> answer is Some && !ending
                && run.admitting
            &&& answer == Some(CancelResult::Unsupported) <==> answer is Some && !ending
                && !run.admitting && run.capability == Cancellation::Unsupported
            &&& answer == Some(CancelResult::Requested) <==> answer is Some && !ending
                && !run.admitting && run.capability == Cancellation::Cooperative
            &&& answer != Some(CancelResult::Requested) ==> final(state)@ == old(state)@
            &&& answer == Some(CancelResult::Requested) ==> final(state)@ == (StateView {
                active: old(state)@.active.insert(
                    id@,
                    ActiveView {
                        cancelled: true,
                        record: RunRecordView { state: RunStateView::Cancelling, ..run.record },
                        ..run
                    },
                ),
                ..old(state)@
            })
        }),
{
}

/// A shutdown marks the service and every active run that can be cancelled, and no other.
pub proof fn shutting_down_marks_cooperative_runs(
    state: &mut State,
    asked: Vec<RunId>,
    id: u128,
)
    requires
        call_ensures(State::shutdown, (state,), asked),
    ensures
        final(state)@.shutting_down,
        final(state)@.jobs == old(state)@.jobs,
        final(state)@.faults == old(state)@.faults,
        final(state)@.active.contains_key(id) == old(state)@.active.contains_key(id),
        old(state)@.active.contains_key(id) ==> final(state)@.active[id] == (ActiveView {
            cancelled: old(state)@.active[id].cancelled || old(state)@.active[id].capability
                == Cancellation::Cooperative,
            ..old(state)@.active[id]
        }),
{
}

/// A confirmed run may start unless the service shuts down, and shows the confirmed record.
pub proof fn starting_shows_the_confirmed_record(
    state: &mut State,
    id: RunId,
    record: RunRecord,
    start: bool,
)
    requires
        call_ensures(State::started, (state, id, record), start),
    ensures
        start == !old(state)@.shutting_down,
        !old(state)@.active.contains_key(id@) ==> final(state)@ == old(state)@,
        old(state)@.active.contains_key(id@) ==> final(state)@ == (StateView {
            active: old(state)@.active.insert(
                id@,
                ActiveView {
                    admitting: false,
                    record: RunRecordView {
                        state: if start {
                            RunStateView::Running
                        } else {
                            record@.state
                        },
                        ..record@
                    },
                    ..old(state)@.active[id@]
                },
            ),
            ..old(state)@
        }),
{
}

/// A report replaces the record; a terminal one is what waiters see.
pub proof fn reporting_shows_the_result(
    state: &mut State,
    id: RunId,
    record: RunRecord,
    uncertain: bool,
)
    requires
        call_ensures(State::progress, (state, id, record, uncertain), ()),
    ensures
        !old(state)@.active.contains_key(id@) ==> final(state)@ == old(state)@,
        old(state)@.active.contains_key(id@) ==> final(state)@ == (StateView {
            active: old(state)@.active.insert(
                id@,
                ActiveView {
                    record: record@,
                    uncertain,
                    published: if record@.state is Finished {
                        Some(record@)
                    } else {
                        old(state)@.active[id@].published
                    },
                    ..old(state)@.active[id@]
                },
            ),
            ..old(state)@
        }),
{
}

/// A fault is noted under its name, and nothing else changes.
pub proof fn noting_a_fault_changes_no_more(state: &mut State, id: RunId)
    requires
        call_ensures(State::fault, (state, id), ()),
    ensures
        final(state)@ == (StateView { faults: old(state)@.faults.insert(id@), ..old(state)@ }),
{
}

/// The end of a run releases its permit and its fault, and nothing else changes.
pub proof fn ending_releases_permit_and_fault(state: &mut State, id: RunId)
    requires
        call_ensures(State::done, (state, id), ()),
    ensures
        final(state)@ == (StateView {
            active: old(state)@.active.remove(id@),
            faults: old(state)@.faults.remove(id@),
            ..old(state)@
        }),
{
}

/// The end of a maintenance releases its fault and lets the next one start.
pub proof fn ending_maintenance_releases_its_fault(state: &mut State, id: RunId)
    requires
        call_ensures(State::maintenance_done, (state, id), ()),
    ensures
        final(state)@ == (StateView {
            maintaining: false,
            faults: old(state)@.faults.remove(id@),
            ..old(state)@
        }),
{
}

/// A snapshot that is looked into leaves its revision with its scope, and its error if it is
/// refused; one that is not changes nothing.
pub proof fn reconciling_notes_the_revision(
    state: &mut State,
    scope: String,
    revision: u64,
    candidates: Vec<Candidate>,
    now: Reading,
    answer: Result<(), Error>,
)
    requires
        call_ensures(State::reconcile, (state, scope, revision, candidates, now), answer),
    ensures
        (final(state)@, answer_view(answer)) == reconciled(
            old(state)@,
            scope@,
            revision,
            candidate_views(candidates@),
            now,
        ),
        looked_into(old(state)@, scope@, revision) ==> {
            let noted = final(state)@.scopes[scope@];
            &&& noted.source_revision == revision
            &&& answer is Ok ==> noted.applied_revision == Some(revision) && noted.last_error
                is None
            &&& answer is Err ==> noted.last_error is Some
        },
        !looked_into(old(state)@, scope@, revision) ==> answer is Err && final(state)@
            == old(state)@,
{
    let offered = candidate_views(candidates@);
    if looked_into(old(state)@, scope@, revision) {
        revision_is_noted(old(state)@, scope@, revision, offered, now);
    } else {
        snapshots_are_refused_unseen(old(state)@, scope@, revision, offered, now);
    }
}

/// An admitted submission launches its own input, or the registered default where it has none, and
/// takes one permit; a refused one changes nothing.
pub proof fn admitting_launches_the_own_input<F: FnOnce(&Job, &str) -> Decoding>(
    state: &mut State,
    request: Submission,
    now: Timestamp,
    decode: F,
    answer: Result<Launch, Error>,
)
    requires
        call_ensures(State::admit_run::<F>, (state, request, now, decode), answer),
    ensures
        answer is Err ==> final(state)@ == old(state)@,
        answer matches Ok(launch) ==> {
            &&& request.input matches Some(text) ==> launch.input@ == text@
            &&& request.input is None ==> launch.input@ == old(state)@.jobs[request.key@].job.input
            &&& encode_utf8(launch.input@).len() <= old(state)@.limits.input_bytes
            &&& exists|job: &Job, text: &str, said: Decoding|
                job@ == old(state)@.jobs[request.key@].job && text@ == launch.input@
                    && said is Accepted && #[trigger] call_ensures(decode, (job, text), said)
            &&& launch.job@ == old(state)@.jobs[request.key@].job
            &&& launch.skip == request.skip
            &&& launch.record.id == request.id
            &&& launch.record.job@ == request.key@
            &&& launch.record.trigger == request.trigger
            &&& launch.record.scheduled_at == request.scheduled
            &&& launch.record.admitted_at == now
            &&& !old(state)@.active.contains_key(request.id@)
            &&& final(state)@.active == old(state)@.active.insert(
                request.id@,
                final(state)@.active[request.id@],
            )
            &&& final(state)@.active[request.id@].record == launch.record@
        },
{
}

/// What a service answers and what it becomes is what the laws of messages say, and it can stop
/// exactly when it shuts down and neither runs nor a maintenance are left.
pub proof fn handling_follows_the_laws<F: Fn(&Job, &str) -> Decoding + Copy>(
    state: &mut State,
    msg: Msg,
    now: Reading,
    decode: F,
    done: Handled,
)
    requires
        call_ensures(State::handle::<F>, (state, msg, now, decode), done),
    ensures
        handled(decode, old(state)@, msg, now, final(state)@, done.answer),
        done.stop <==> final(state)@.shutting_down && !final(state)@.maintaining
            && final(state)@.active.dom() == Set::<u128>::empty(),
{
}

/// A maintenance keeps its name, begins by applying retention, and ends when it was applied.
pub proof fn maintenance_keeps_its_name(
    upkeep: &mut Maintenance,
    event: UpkeepEvent,
    actions: Vec<UpkeepAction>,
)
    requires
        call_ensures(Maintenance::step, (upkeep, event), actions),
    ensures
        final(upkeep).id == old(upkeep).id,
        old(upkeep).phase is Waiting && event is Begun ==> actions@ == seq![UpkeepAction::Prune],
        old(upkeep).phase is Pruning && event == UpkeepEvent::Pruned(true) ==> actions@
            == seq![UpkeepAction::Done] && final(upkeep).phase is Ended,
        old(upkeep).phase is Pruning && event == UpkeepEvent::Pruned(false) ==> actions@.len() == 2
            && actions@[0] == UpkeepAction::Fault && final(upkeep).phase is Pausing,
        actions@.contains(UpkeepAction::Done) ==> event == UpkeepEvent::Pruned(true),
{
}

} // verus!
