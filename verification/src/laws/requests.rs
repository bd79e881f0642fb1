//! What becomes of what a service is told and asked.

use vstd::prelude::*;
use vstd::utf8::encode_utf8;
use crate::admission::{admission_answers, Launch, SubmissionView};
use crate::ids::RunId;
use crate::job::{Decoding, DecodingView, Job};
use crate::model::{
    CancelResult, Cancellation, Error, ErrorView, JobKey, Limits, RunRecord, RunRecordView,
    RunStateView, Trigger,
};
use crate::service::{handled, Answer, Msg};
use crate::state::{started_state, ActiveView, State, StateView};
use crate::sorted::Key;
use crate::time::{Moment, Reading, Timestamp};

verus! {

/// Whether some active run is of a job.
pub open spec fn has_run_of(state: StateView, key: Seq<char>) -> bool {
    exists|id: u128| #[trigger]
        state.active.contains_key(id) && state.active[id].record.job == key
}

/// An admitted run is the one that was asked for: its input is the very text of the request, or
/// the registered default where the request has none, that text is within the limit, and its
/// decoder accepted it. Its record names the request and the registered version, and holds
/// nothing yet; the service holds one more run, still being admitted, and is otherwise unchanged.
pub proof fn admitted_run_is_the_one_asked_for(
    before: StateView,
    request: SubmissionView,
    said: DecodingView,
    now: Timestamp,
    after: StateView,
    launch: Launch,
)
    requires
        admission_answers(before, request, said, now, after, Ok(launch)),
    ensures
        request.input matches Some(text) ==> launch.input@ == text,
        request.input is None ==> launch.input@ == before.jobs[request.key].job.input,
        encode_utf8(launch.input@).len() <= before.limits.input_bytes,
        said is Accepted,
        launch.job@ == before.jobs[request.key].job,
        launch.skip == request.skip,
        launch.record@ == (RunRecordView {
            id: request.id,
            job: request.key,
            definition_version: before.jobs[request.key].job.definition.version,
            trigger: request.trigger,
            scheduled_at: request.scheduled,
            admitted_at: now,
            admission_sequence: 0,
            finished_at: None,
            state: RunStateView::Admitted,
            last_log_sequence: 0,
            dropped_log_count: 0,
        }),
        after.active == before.active.insert(
            request.id,
            ActiveView {
                record: launch.record@,
                capability: before.jobs[request.key].job.definition.cancellation,
                cancelled: false,
                published: None,
                admitting: true,
                uncertain: false,
                skip: request.skip,
            },
        ),
        after == (StateView { active: after.active, ..before }),
{
}

/// A run is admitted exactly if its identifier is free, the service neither shuts down nor has an
/// open fault, the job is registered, a permit is free, no run of the job is active unless only
/// a collision is to be recorded, and the input is within the limit and accepted. Otherwise
/// nothing changes, and the first of these that fails is the reason.
pub proof fn submission_is_refused_for_a_reason(
    before: StateView,
    request: SubmissionView,
    said: DecodingView,
    now: Timestamp,
    after: StateView,
    answer: Result<Launch, Error>,
    text: Seq<char>,
)
    requires
        admission_answers(before, request, said, now, after, answer),
        text == match request.input {
            Some(given) => given,
            None => before.jobs[request.key].job.input,
        },
    ensures
        answer is Ok <==> {
            &&& !before.active.contains_key(request.id)
            &&& !before.shutting_down
            &&& before.faults == Set::<u128>::empty()
            &&& before.jobs.contains_key(request.key)
            &&& before.active.dom().len() < before.limits.concurrency
            &&& request.skip || !has_run_of(before, request.key)
            &&& encode_utf8(text).len() <= before.limits.input_bytes
            &&& said is Accepted
        },
        answer matches Err(e) ==> after == before && e@ == if before.active.contains_key(
            request.id,
        ) {
            ErrorView::AlreadySubmitted(request.id)
        } else if before.shutting_down {
            ErrorView::ShuttingDown
        } else if before.faults != Set::<u128>::empty() {
            ErrorView::Journal("admission closed"@)
        } else if !before.jobs.contains_key(request.key) {
            ErrorView::NotFound
        } else if before.active.dom().len() >= before.limits.concurrency {
            ErrorView::Busy
        } else if !request.skip && has_run_of(before, request.key) {
            ErrorView::Busy
        } else if encode_utf8(text).len() > before.limits.input_bytes {
            ErrorView::Invalid("input limit"@)
        } else {
            match said {
                DecodingView::Refused(reason) => ErrorView::Invalid(reason),
                _ => ErrorView::Invalid("input decoder panicked"@),
            }
        },
{
    assert(has_run_of(before, request.key) == before.occupied(request.key)) by {
        if has_run_of(before, request.key) {
            let id = choose|id: u128| #[trigger]
                before.active.contains_key(id) && before.active[id].record.job == request.key;
            assert(before.active.contains_key(id));
        }
        if before.occupied(request.key) {
            let id = choose|id: u128| #[trigger]
                before.active.contains_key(id) && before.active[id].record.job == request.key;
            assert(before.active.contains_key(id));
        }
    }
}

/// What a caller asks a service to run is what is launched: the text that the decoder of the
/// registered job accepted, under the caller's identifier and trigger, at the time of the
/// request, with no scheduled instant and not as a collision.
pub proof fn launched_input_was_decoded<F: Fn(&Job, &str) -> Decoding>(
    decode: F,
    before: StateView,
    key: JobKey,
    id: RunId,
    input: Option<String>,
    trigger: Trigger,
    now: Reading,
    after: StateView,
    launch: Launch,
)
    requires
        handled(
            decode,
            before,
            Msg::Submit(key, id, input, trigger),
            now,
            after,
            Answer::Submitted(Ok(launch)),
        ),
    ensures
        input matches Some(text) ==> launch.input@ == text@,
        input is None ==> launch.input@ == before.jobs[key@].job.input,
        exists|job: &Job, text: &str, said: Decoding|
            job@ == before.jobs[key@].job && text@ == launch.input@ && said is Accepted
                && #[trigger] call_ensures(decode, (job, text), said),
        launch.job@ == before.jobs[key@].job,
        !launch.skip,
        launch.record.id == id,
        launch.record.job@ == key@,
        launch.record.trigger == trigger,
        launch.record.scheduled_at is None,
        launch.record.admitted_at == now.wall,
        launch.record@.state is Admitted,
        after.active == before.active.insert(id@, after.active[id@]),
        after == (StateView { active: after.active, ..before }),
{
}

/// A submission that nothing but its input could refuse is refused exactly as the decoder says.
pub proof fn refused_input_says_why<F: Fn(&Job, &str) -> Decoding>(
    decode: F,
    before: StateView,
    key: JobKey,
    id: RunId,
    input: Option<String>,
    trigger: Trigger,
    now: Reading,
    after: StateView,
    answer: Answer,
    text: Seq<char>,
)
    requires
        handled(decode, before, Msg::Submit(key, id, input, trigger), now, after, answer),
        text == match input {
            Some(given) => given@,
            None => before.jobs[key@].job.input,
        },
        !before.active.contains_key(id@),
        !before.shutting_down,
        before.faults == Set::<u128>::empty(),
        before.jobs.contains_key(key@),
        before.active.dom().len() < before.limits.concurrency,
        !has_run_of(before, key@),
        encode_utf8(text).len() <= before.limits.input_bytes,
    ensures
        exists|job: &Job, given: &str, said: Decoding|
            {
                &&& job@ == before.jobs[key@].job
                &&& given@ == text
                &&& #[trigger] call_ensures(decode, (job, given), said)
                &&& match said@ {
                    DecodingView::Accepted => answer matches Answer::Submitted(Ok(launch)),
                    DecodingView::Refused(reason) => answer matches Answer::Submitted(Err(e)) && e@
                        == ErrorView::Invalid(reason),
                    DecodingView::Panicked => answer matches Answer::Submitted(Err(e)) && e@
                        == ErrorView::Invalid("input decoder panicked"@),
                }
            },
{
    assert(!before.occupied(key@)) by {
        if before.occupied(key@) {
            let other = choose|other: u128| #[trigger]
                before.active.contains_key(other) && before.active[other].record.job == key@;
            assert(has_run_of(before, key@));
        }
    }
}

/// Waiters of an active run are shown its terminal record if there is one yet, and asking changes
/// nothing.
pub proof fn watching_shows_the_result<F: Fn(&Job, &str) -> Decoding>(
    decode: F,
    before: StateView,
    id: RunId,
    now: Reading,
    after: StateView,
    answer: Answer,
)
    requires
        handled(decode, before, Msg::Watch(id), now, after, answer),
    ensures
        after == before,
        !before.active.contains_key(id@) ==> answer == Answer::Watched(None),
        before.active.contains_key(id@) && before.active[id@].published is None ==> answer
            == Answer::Watched(Some(None)),
        before.active.contains_key(id@) && before.active[id@].published is Some ==> (
        answer matches Answer::Watched(Some(Some(record))) && record@
            == before.active[id@].published->0),
{
}

/// A result that a run reports is what waiters see from then on, until the run ends; then the
/// service knows nothing of the run any more.
pub proof fn reported_result_is_watched<F: Fn(&Job, &str) -> Decoding>(
    decode: F,
    first: StateView,
    id: RunId,
    record: RunRecord,
    uncertain: bool,
    now: Reading,
    reported: StateView,
    noted: Answer,
    seen: Answer,
    ended: StateView,
    released: Answer,
    gone: Answer,
)
    requires
        first.active.contains_key(id@),
        record@.state is Finished,
        handled(decode, first, Msg::Progress(id, record, uncertain), now, reported, noted),
        handled(decode, reported, Msg::Watch(id), now, reported, seen),
        handled(decode, reported, Msg::Done(id), now, ended, released),
        handled(decode, ended, Msg::Watch(id), now, ended, gone),
    ensures
        seen matches Answer::Watched(Some(Some(shown))) && shown@ == record@,
        gone == Answer::Watched(None),
{
}

/// A cancellation request on an unknown run is answered by nothing; on one that is finalizing or
/// finished, that it is too late; on one still being admitted, that it is too early; and on one
/// that cannot be cancelled, just that. None of these changes anything. Any other active run is
/// marked as asked to stop and shown as cancelling, and nothing else changes.
pub proof fn cancellation_is_answered<F: Fn(&Job, &str) -> Decoding>(
    decode: F,
    before: StateView,
    id: RunId,
    now: Reading,
    after: StateView,
    answer: Answer,
)
    requires
        handled(decode, before, Msg::Cancel(id), now, after, answer),
    ensures
        ({
            let run = before.active[id@];
            let said = answer->Cancelled_0;
            &&& answer is Cancelled
            &&& said is Some <==> before.active.contains_key(id@)
            &&& before.active.contains_key(id@) ==> said->0 == match run.record.state {
                RunStateView::Finished(_) => CancelResult::AlreadyFinished,
                RunStateView::Finalizing => CancelResult::AlreadyFinished,
                _ => if run.admitting {
                    CancelResult::AdmissionPending
                } else {
                    match run.capability {
                        Cancellation::Unsupported => CancelResult::Unsupported,
                        Cancellation::Cooperative => CancelResult::Requested,
                    }
                },
            }
            &&& said != Some(CancelResult::Requested) ==> after == before
            &&& said == Some(CancelResult::Requested) ==> {
                &&& after.active == before.active.insert(id@, after.active[id@])
                &&& after.active[id@].cancelled
                &&& after.active[id@].record == (RunRecordView {
                    state: RunStateView::Cancelling,
                    ..run.record
                })
                &&& after.active[id@] == (ActiveView {
                    cancelled: true,
                    record: after.active[id@].record,
                    ..run
                })
                &&& after == (StateView { active: after.active, ..before })
            }
        }),
{
}

/// A run whose admission is confirmed may start unless the service shuts down. Its record is then
/// the confirmed one, running if it may start, and it is no longer being admitted; nothing else
/// changes.
pub proof fn confirmed_run_may_start<F: Fn(&Job, &str) -> Decoding>(
    decode: F,
    before: StateView,
    id: RunId,
    record: RunRecord,
    now: Reading,
    after: StateView,
    answer: Answer,
)
    requires
        handled(decode, before, Msg::Started(id, record), now, after, answer),
    ensures
        answer == Answer::Started(!before.shutting_down),
        !before.active.contains_key(id@) ==> after == before,
        before.active.contains_key(id@) ==> {
            &&& after.active == before.active.insert(id@, after.active[id@])
            &&& after == (StateView { active: after.active, ..before })
            &&& !after.active[id@].admitting
            &&& before.shutting_down ==> after.active[id@].record == record@
            &&& !before.shutting_down ==> after.active[id@].record == (RunRecordView {
                state: RunStateView::Running,
                ..record@
            })
            &&& after.active[id@] == (ActiveView {
                record: after.active[id@].record,
                admitting: false,
                ..before.active[id@]
            })
        },
{
}

/// What a run reports replaces its record and its mark of uncertainty; a terminal record is shown
/// to waiters, and any other leaves what they were shown. Nothing else changes, and a report of a
/// run that is not active changes nothing.
pub proof fn report_replaces_the_record<F: Fn(&Job, &str) -> Decoding>(
    decode: F,
    before: StateView,
    id: RunId,
    record: RunRecord,
    uncertain: bool,
    now: Reading,
    after: StateView,
    answer: Answer,
)
    requires
        handled(decode, before, Msg::Progress(id, record, uncertain), now, after, answer),
    ensures
        !before.active.contains_key(id@) ==> after == before,
        before.active.contains_key(id@) ==> {
            &&& after.active == before.active.insert(id@, after.active[id@])
            &&& after == (StateView { active: after.active, ..before })
            &&& after.active[id@].record == record@
            &&& after.active[id@].uncertain == uncertain
            &&& record@.state is Finished ==> after.active[id@].published == Some(record@)
            &&& !(record@.state is Finished) ==> after.active[id@].published
                == before.active[id@].published
            &&& after.active[id@] == (ActiveView {
                record: record@,
                uncertain,
                published: after.active[id@].published,
                ..before.active[id@]
            })
        },
{
}

/// A fault is open from when it is told of until its run, or the maintenance of that name, ends;
/// faults of others stay as they are. Only the end of a run releases a permit, its own, and only
/// the end of a maintenance lets the next one start.
pub proof fn fault_lasts_until_the_end<F: Fn(&Job, &str) -> Decoding>(
    decode: F,
    before: StateView,
    id: RunId,
    other: u128,
    now: Reading,
    after: StateView,
    answer: Answer,
)
    ensures
        handled(decode, before, Msg::Fault(id), now, after, answer) ==> {
            &&& after.faults.contains(id@)
            &&& other != id@ ==> after.faults.contains(other) == before.faults.contains(other)
            &&& after == (StateView { faults: after.faults, ..before })
        },
        handled(decode, before, Msg::Done(id), now, after, answer) ==> {
            &&& !after.faults.contains(id@)
            &&& !after.active.contains_key(id@)
            &&& other != id@ ==> after.faults.contains(other) == before.faults.contains(other)
            &&& other != id@ ==> after.active.contains_key(other) == before.active.contains_key(
                other,
            )
            &&& other != id@ && before.active.contains_key(other) ==> after.active[other]
                == before.active[other]
            &&& after == (StateView { active: after.active, faults: after.faults, ..before })
        },
        handled(decode, before, Msg::MaintenanceDone(id), now, after, answer) ==> {
            &&& !after.faults.contains(id@)
            &&& !after.maintaining
            &&& other != id@ ==> after.faults.contains(other) == before.faults.contains(other)
            &&& after == (StateView { maintaining: false, faults: after.faults, ..before })
        },
{
}

/// A shutdown names, in the order of their identifiers and each once, exactly the active runs
/// that can be cancelled.
pub proof fn shutdown_names_cooperative_runs<F: Fn(&Job, &str) -> Decoding>(
    decode: F,
    state: State,
    now: Reading,
    after: StateView,
    asked: Vec<RunId>,
    id: RunId,
    i: int,
    j: int,
)
    requires
        state.wf(),
        handled(decode, state@, Msg::Shutdown, now, after, Answer::Stopping(asked)),
    ensures
        asked@.contains(id) <==> state@.active.contains_key(id@) && state@.active[id@].capability
            == Cancellation::Cooperative,
        0 <= i < j < asked@.len() ==> asked@[i]@ < asked@[j]@,
{
    let chosen = |run: u128| state@.active[run].capability == Cancellation::Cooperative;
    state.active.lemma_keys();
    let keys = state.active.keys();
    lemma_filter(keys, chosen);
    let ids = asked@.map_values(|run: RunId| run@);
    assert(ids == keys.filter(chosen));
    if asked@.contains(id) {
        let p = choose|p: int| 0 <= p < asked@.len() && asked@[p] == id;
        assert(ids[p] == id@);
        assert(keys.filter(chosen).contains(id@));
    }
    if state@.active.contains_key(id@) && state@.active[id@].capability
        == Cancellation::Cooperative {
        state.active.lemma_key(id@);
        assert(keys[state.active.position(id@)] == id@);
        assert(keys.contains(id@));
        assert(ids.contains(id@));
        let p = choose|p: int| 0 <= p < ids.len() && ids[p] == id@;
        assert(asked@[p]@ == id@);
        assert(asked@[p] == id);
    }
    if 0 <= i < j < asked@.len() {
        assert(ids[i] == asked@[i]@ && ids[j] == asked@[j]@);
        assert(forall|a: int, b: int| 0 <= a < b < keys.len() ==> keys[a] < keys[b]) by {
            assert forall|a: int, b: int| 0 <= a < b < keys.len() implies keys[a] < keys[b] by {
                assert(RunId::precedes(state.active.key_at(a), state.active.key_at(b)));
            }
        }
    }
}

/// What is filtered out of a list in increasing order is there exactly if it is listed and
/// satisfies the condition, and stays in increasing order.
pub(crate) proof fn lemma_filter(list: Seq<u128>, chosen: spec_fn(u128) -> bool)
    ensures
        forall|id: u128| #[trigger]
            list.filter(chosen).contains(id) <==> list.contains(id) && chosen(id),
        (forall|a: int, b: int| 0 <= a < b < list.len() ==> list[a] < list[b]) ==> (forall|
            a: int,
            b: int,
        |
            0 <= a < b < list.filter(chosen).len() ==> list.filter(chosen)[a] < list.filter(
                chosen,
            )[b]),
    decreases list.len(),
{
    reveal(Seq::filter);
    if list.len() > 0 {
        let head = list.drop_last();
        lemma_filter(head, chosen);
        let last = list.last();
        let kept = list.filter(chosen);
        assert forall|id: u128| #[trigger] kept.contains(id) <==> list.contains(id) && chosen(
            id,
        ) by {
            if kept.contains(id) {
                let p = choose|p: int| 0 <= p < kept.len() && kept[p] == id;
                if p < head.filter(chosen).len() {
                    assert(head.filter(chosen)[p] == id);
                    assert(head.filter(chosen).contains(id));
                    let q = choose|q: int| 0 <= q < head.len() && head[q] == id;
                    assert(list[q] == id);
                } else {
                    assert(list[list.len() - 1] == id);
                }
            }
            if list.contains(id) && chosen(id) {
                let p = choose|p: int| 0 <= p < list.len() && list[p] == id;
                if p < list.len() - 1 {
                    assert(head[p] == id);
                    assert(head.filter(chosen).contains(id));
                    let q = choose|q: int|
                        0 <= q < head.filter(chosen).len() && head.filter(chosen)[q] == id;
                    assert(kept[q] == id);
                } else {
                    assert(kept[kept.len() - 1] == id);
                }
            }
        }
        if forall|a: int, b: int| 0 <= a < b < list.len() ==> list[a] < list[b] {
            assert forall|a: int, b: int| 0 <= a < b < kept.len() implies kept[a] < kept[b] by {
                let before = head.filter(chosen);
                assert(forall|x: int, y: int| 0 <= x < y < head.len() ==> head[x] < head[y]);
                if b < before.len() {
                    assert(before[a] < before[b]);
                } else {
                    assert(before.contains(before[a]));
                    assert(head.contains(before[a]));
                    let q = choose|q: int| 0 <= q < head.len() && head[q] == before[a];
                    assert(list[q] < list[list.len() - 1]);
                }
            }
        }
    }
}

/// A service starts with no jobs, scopes, runs or faults and with its counters at zero; nothing
/// is under way, and the first idle maintenance is due in a minute.
pub proof fn service_starts_empty(limits: Limits, now: Moment)
    requires
        now.countable(),
    ensures
        ({
            let state = started_state(limits, now);
            &&& state.jobs == Map::<Seq<char>, crate::state::RegistrationView>::empty()
            &&& state.scopes == Map::<Seq<char>, crate::state::ScopeView>::empty()
            &&& state.active == Map::<u128, ActiveView>::empty()
            &&& state.faults == Set::<u128>::empty()
            &&& state.generation == 0
            &&& state.dropped == 0
            &&& state.missed == 0
            &&& !state.maintaining
            &&& !state.shutting_down
            &&& state.maintenance_due.nanos == now.nanos + 60_000_000_000
            &&& state.limits == limits
        }),
{
}

} // verus!
