//! The messages of a service, their effect on its state, and what holds of every one of them.

use vstd::prelude::*;
use crate::admission::{
    admission_answers, admission_fault, request_fault, request_input, with_admitted, Launch,
    Submission, SubmissionView,
};
use crate::control::{
    cancel_answer, with_cancel, with_done, with_fault, with_maintenance_done, with_progress,
    with_shutdown, with_started,
};
use crate::ids::RunId;
use crate::inspect::{id_views, shows, Inspection};
use crate::job::{Decoding, DecodingView, Job};
use crate::model::{
    CancelResult, Cancellation, Error, ErrorView, JobKey, Limits, RunRecord, Trigger,
};
use crate::reconcile::{
    answer_view, candidate_views, generations_stay_bounded, reconciled, Candidate,
};
use crate::state::{
    record_view, registrations_fit, started_state, text_view, ActiveView, State, StateView,
};
use crate::tick::{
    all_fired, all_moved_on, due_request, fires, heard, launch_views, looked_at,
    maintenance_due, moved_on, reaches_decoder, submitted, surveyed, ticked, time_left,
    with_maintenance, DueView, Ticked, LONGEST_TICK,
};
use crate::sorted::in_order;
use crate::time::{Moment, Reading, Span, Timestamp};

verus! {

/// What a service is told or asked.
#[derive(Debug)]
pub enum Msg {
    Reconcile(String, u64, Vec<Candidate>),
    /// A job, the identifier of the run, its encoded input or none for the job's default, and why.
    Submit(JobKey, RunId, Option<String>, Trigger),
    Watch(RunId),
    Cancel(RunId),
    Inspect,
    Shutdown,
    Tick,
    Started(RunId, RunRecord),
    Fault(RunId),
    Progress(RunId, RunRecord, bool),
    Done(RunId),
    MaintenanceDone(RunId),
}

/// What a service answers.
#[derive(Debug)]
pub enum Answer {
    Reconciled(Result<(), Error>),
    /// The run to start, or why there is none.
    Submitted(Result<Launch, Error>),
    /// Of an active run, the terminal record shown so far.
    Watched(Option<Option<RunRecord>>),
    Cancelled(Option<CancelResult>),
    Inspected(Inspection),
    /// The runs that are asked to stop.
    Stopping(Vec<RunId>),
    /// What to start, and how long to wait for the next tick.
    Ticked(Ticked, Span),
    /// Whether the run may start.
    Started(bool),
    Noted,
}

/// An answer, and whether the service can stop now.
#[derive(Debug)]
pub struct Handled {
    pub answer: Answer,
    pub stop: bool,
}

/// What a caller asks for: a run that is not scheduled, and that is not started beside another of
/// its job.
pub open spec fn asked_run(
    key: JobKey,
    id: RunId,
    input: Option<String>,
    trigger: Trigger,
) -> SubmissionView {
    SubmissionView {
        key: key@,
        id: id@,
        input: text_view(input),
        trigger,
        scheduled: None,
        skip: false,
    }
}

/// Whether a decoder was asked about a submission that got as far, and an answer and a new state
/// follow from what it said.
pub open spec fn submission_answers<F: Fn(&Job, &str) -> Decoding>(
    decode: F,
    before: StateView,
    request: SubmissionView,
    now: Timestamp,
    after: StateView,
    answer: Result<Launch, Error>,
) -> bool {
    if reaches_decoder(before, request) {
        exists|said: DecodingView|
            {
                &&& #[trigger] heard(
                    decode,
                    before.jobs[request.key].job,
                    request_input(before, request),
                    said,
                )
                &&& admission_answers(before, request, said, now, after, answer)
            }
    } else {
        admission_answers(before, request, DecodingView::Accepted, now, after, answer)
    }
}

/// Whether a wait is the time until the nearest deadline, and five seconds at most.
pub open spec fn waits_for_nearest(state: StateView, now: Reading, wait: Span) -> bool {
    &&& wait.nanos <= LONGEST_TICK
    &&& forall|key: Seq<char>| #[trigger]
        state.jobs.contains_key(key) ==> (time_left(state.jobs[key].timing, now) matches Some(left)
            ==> wait.nanos <= left)
    &&& wait.nanos == LONGEST_TICK || exists|key: Seq<char>| #[trigger]
        state.jobs.contains_key(key) && time_left(state.jobs[key].timing, now) == Some(
            wait.nanos as nat,
        )
}

/// Whether a message leads from a state to another with an answer.
pub open spec fn handled<F: Fn(&Job, &str) -> Decoding>(
    decode: F,
    before: StateView,
    msg: Msg,
    now: Reading,
    after: StateView,
    answer: Answer,
) -> bool {
    match msg {
        Msg::Reconcile(scope, revision, candidates) => {
            &&& answer matches Answer::Reconciled(said)
            &&& (after, answer_view(said)) == reconciled(
                before,
                scope@,
                revision,
                candidate_views(candidates@),
                now,
            )
        },
        Msg::Submit(key, id, input, trigger) => {
            &&& answer matches Answer::Submitted(said)
            &&& submission_answers(
                decode,
                before,
                asked_run(key, id, input, trigger),
                now.wall,
                after,
                said,
            )
        },
        Msg::Watch(id) => {
            &&& answer matches Answer::Watched(seen)
            &&& after == before
            &&& seen is Some <==> before.active.contains_key(id@)
            &&& seen matches Some(shown) ==> record_view(shown) == before.active[id@].published
        },
        Msg::Cancel(id) => {
            &&& answer matches Answer::Cancelled(said)
            &&& after == with_cancel(before, id@)
            &&& said == if before.active.contains_key(id@) {
                Some(cancel_answer(before.active[id@]))
            } else {
                None
            }
        },
        Msg::Inspect => {
            &&& answer matches Answer::Inspected(inspection)
            &&& after == before
            &&& shows(inspection, before)
        },
        Msg::Shutdown => {
            &&& answer matches Answer::Stopping(asked)
            &&& after == with_shutdown(before)
            &&& id_views(asked@) == in_order::<RunId>(before.active.dom()).filter(
                |id: u128| before.active[id].capability == Cancellation::Cooperative,
            )
        },
        Msg::Tick => {
            &&& answer matches Answer::Ticked(done, wait)
            &&& done.maintain == (!before.shutting_down && maintenance_due(before, now))
            &&& before.shutting_down ==> after == before && done.launches@.len() == 0
            &&& !before.shutting_down ==> ticked(
                decode,
                before,
                now,
                after,
                launch_views(done.launches@),
            )
            &&& !before.shutting_down ==> all_moved_on(before.jobs, after.jobs, now)
            &&& waits_for_nearest(after, now, wait)
        },
        Msg::Started(id, record) => {
            &&& answer == Answer::Started(!before.shutting_down)
            &&& after == with_started(before, id@, record@)
        },
        Msg::Fault(id) => answer == Answer::Noted && after == with_fault(before, id@),
        Msg::Progress(id, record, uncertain) => {
            &&& answer == Answer::Noted
            &&& after == with_progress(before, id@, record@, uncertain)
        },
        Msg::Done(id) => answer == Answer::Noted && after == with_done(before, id@),
        Msg::MaintenanceDone(id) => {
            &&& answer == Answer::Noted
            &&& after == with_maintenance_done(before, id@)
        },
    }
}

impl State {
    /// Decides a submission and says what was heard from the decoder.
    fn submit<F: Fn(&Job, &str) -> Decoding>(
        &mut self,
        request: Submission,
        now: Timestamp,
        decode: F,
    ) -> (answer: Result<Launch, Error>)
        requires
            old(self).wf(),
            forall|job: &Job, text: &str| call_requires(decode, (job, text)),
        ensures
            final(self).wf(),
            submission_answers(decode, old(self)@, request@, now, final(self)@, answer),
    {
        let ghost before = self@;
        let ghost asked = request@;
        let answer = self.admit_run(request, now, decode);
        proof {
            if reaches_decoder(before, asked) {
                let (job, text, d) = choose|job: &Job, text: &str, d: Decoding|
                    {
                        &&& job@ == before.jobs[asked.key].job
                        &&& text@ == request_input(before, asked)
                        &&& #[trigger] call_ensures(decode, (job, text), d)
                        &&& admission_answers(before, asked, d@, now, self@, answer)
                    };
                assert(heard(decode, before.jobs[asked.key].job, request_input(before, asked), d@));
            }
        }
        answer
    }

    /// Acts on a message. `decode` tells what a job's decoder makes of an input. The service can
    /// stop once it is shutting down and neither runs nor maintenance are left.
    pub fn handle<F: Fn(&Job, &str) -> Decoding + Copy>(
        &mut self,
        msg: Msg,
        now: Reading,
        decode: F,
    ) -> (done: Handled)
        requires
            old(self).wf(),
            now.usable(),
            forall|job: &Job, text: &str| call_requires(decode, (job, text)),
            msg matches Msg::Reconcile(_, _, candidates) ==> old(self).generation
                + candidates@.len() <= u64::MAX,
        ensures
            final(self).wf(),
            handled(decode, old(self)@, msg, now, final(self)@, done.answer),
            done.stop == final(self)@.finished(),
    {
        let answer = match msg {
            Msg::Reconcile(scope, revision, candidates) => Answer::Reconciled(
                self.reconcile(scope, revision, candidates, now),
            ),
            Msg::Submit(key, id, input, trigger) => {
                let request = Submission { key, id, input, trigger, scheduled: None, skip: false };
                Answer::Submitted(self.submit(request, now.wall, decode))
            },
            Msg::Watch(id) => Answer::Watched(
                match self.watch(id) {
                    Some(Some(record)) => Some(Some(record.clone())),
                    Some(None) => Some(None),
                    None => None,
                },
            ),
            Msg::Cancel(id) => Answer::Cancelled(self.cancel(id)),
            Msg::Inspect => Answer::Inspected(self.inspect()),
            Msg::Shutdown => Answer::Stopping(self.shutdown()),
            Msg::Tick => {
                let done = self.tick(now, decode);
                let wait = self.next_tick(now);
                Answer::Ticked(done, wait)
            },
            Msg::Started(id, record) => Answer::Started(self.started(id, record)),
            Msg::Fault(id) => {
                self.fault(id);
                Answer::Noted
            },
            Msg::Progress(id, record, uncertain) => {
                self.progress(id, record, uncertain);
                Answer::Noted
            },
            Msg::Done(id) => {
                self.done(id);
                Answer::Noted
            },
            Msg::MaintenanceDone(id) => {
                self.maintenance_done(id);
                Answer::Noted
            },
        };
        let stop = self.stopped();
        Handled { answer, stop }
    }
}

// ---- What a tick keeps ----

/// Looking at jobs changes neither runs, faults nor limits.
proof fn lemma_looked_at(state: StateView, keys: Seq<Seq<char>>, n: nat, now: Reading)
    ensures
        ({
            let after = looked_at(state, keys, n, now).0;
            &&& after.active == state.active
            &&& after.faults == state.faults
            &&& after.limits == state.limits
            &&& after.shutting_down == state.shutting_down
            &&& after.dropped == state.dropped
            &&& after.generation == state.generation
        }),
    decreases n,
{
    if n > 0 {
        lemma_looked_at(state, keys, (n - 1) as nat, now);
    }
}

proof fn lemma_surveyed(state: StateView, now: Reading)
    ensures
        ({
            let after = surveyed(state, now).0;
            &&& after.active == state.active
            &&& after.faults == state.faults
            &&& after.limits == state.limits
            &&& after.shutting_down == state.shutting_down
            &&& after.dropped == state.dropped
            &&& after.generation == state.generation
        }),
{
    let begun = with_maintenance(state, now);
    let keys = in_order::<String>(begun.jobs.dom());
    lemma_looked_at(begun, keys, keys.len(), now);
}

/// What one admission keeps: capacity, and one executing run of a job.
proof fn lemma_admitted(
    state: StateView,
    request: SubmissionView,
    said: DecodingView,
    now: Timestamp,
)
    requires
        admission_fault(state, request, said) is None,
    ensures
        ({
            let after = with_admitted(state, request, now);
            &&& state.within_capacity() ==> after.within_capacity()
            &&& state.exclusive() ==> after.exclusive()
            &&& state.active.submap_of(after.active)
            &&& !state.active.contains_key(request.id)
        }),
{
    let after = with_admitted(state, request, now);
    assert(after.active.dom() =~= state.active.dom().insert(request.id));
    if state.exclusive() {
        assert forall|a: u128, b: u128| #[trigger]
            after.active.contains_key(a) && #[trigger] after.active.contains_key(b) && a != b
                && !after.active[a].skip
                && !after.active[b].skip implies after.active[a].record.job
            != after.active[b].record.job by {
            if a == request.id {
                assert(state.active.contains_key(b));
                assert(!state.occupied(request.key));
            } else if b == request.id {
                assert(state.active.contains_key(a));
                assert(!state.occupied(request.key));
            } else {
                assert(state.active.contains_key(a) && state.active.contains_key(b));
            }
        }
    }
    assert(state.active.submap_of(after.active));
}

/// Submitting what is due keeps capacity, one executing run of a job, and every active run.
proof fn lemma_submitted(
    state: StateView,
    dues: Seq<DueView>,
    n: nat,
    now: Timestamp,
    ids: Seq<u128>,
    said: Seq<DecodingView>,
)
    ensures
        ({
            let after = submitted(state, dues, n, now, ids, said);
            &&& state.within_capacity() ==> after.0.within_capacity()
            &&& state.exclusive() ==> after.0.exclusive()
            &&& state.active.submap_of(after.0.active)
            &&& after.0.jobs == state.jobs
            &&& after.0.faults == state.faults
            &&& after.0.limits == state.limits
            &&& after.0.generation == state.generation
            &&& after.0.scopes == state.scopes
            &&& after.0.shutting_down == state.shutting_down
            &&& state.faults != Set::<u128>::empty() ==> after.1.len() == 0 && after.0.active
                == state.active
        }),
    decreases n,
{
    if n > 0 {
        let m = (n - 1) as nat;
        lemma_submitted(state, dues, m, now, ids, said);
        let before = submitted(state, dues, m, now, ids, said);
        let after = submitted(state, dues, n, now, ids, said);
        let request = due_request(before.0, dues[n - 1], ids[n - 1]);
        if admission_fault(before.0, request, said[n - 1]) is None {
            lemma_admitted(before.0, request, said[n - 1], now);
            assert(state.faults == Set::<u128>::empty());
            assert(after.0 == with_admitted(before.0, request, now));
            assert(state.active.submap_of(after.0.active));
        } else {
            assert(after.0.active == before.0.active);
            assert(after.0.exclusive() == before.0.exclusive());
            assert(after.1 == before.1);
        }
    }
}

// ---- Laws ----

/// No message takes a service over its capacity: permits, those of collisions included, are never
/// more than the limit.
pub proof fn capacity_is_never_exceeded<F: Fn(&Job, &str) -> Decoding>(
    decode: F,
    before: StateView,
    msg: Msg,
    now: Reading,
    after: StateView,
    answer: Answer,
)
    requires
        before.within_capacity(),
        handled(decode, before, msg, now, after, answer),
    ensures
        after.within_capacity(),
{
    match msg {
        Msg::Submit(key, id, input, trigger) => {
            let request = asked_run(key, id, input, trigger);
            let said = choose_said(decode, before, request, now.wall, after, answer);
            if admission_fault(before, request, said) is None {
                lemma_admitted(before, request, said, now.wall);
            }
        },
        Msg::Tick => {
            if !before.shutting_down {
                lemma_ticked(decode, before, now, after, answer);
            }
        },
        Msg::Shutdown => {
            assert(after.active.dom() =~= before.active.dom());
        },
        Msg::Cancel(id) => {
            assert(after.active.dom() =~= before.active.dom());
        },
        Msg::Started(id, record) => {
            assert(after.active.dom() =~= before.active.dom());
        },
        Msg::Progress(id, record, uncertain) => {
            assert(after.active.dom() =~= before.active.dom());
        },
        Msg::Done(id) => {
            assert(after.active.dom() =~= before.active.dom().remove(id@));
        },
        _ => {},
    }
}

/// What the decoder said of a submission, as far as it was asked.
spec fn choose_said<F: Fn(&Job, &str) -> Decoding>(
    decode: F,
    before: StateView,
    request: SubmissionView,
    now: Timestamp,
    after: StateView,
    answer: Answer,
) -> DecodingView {
    if reaches_decoder(before, request) {
        choose|said: DecodingView|
            {
                &&& #[trigger] heard(
                    decode,
                    before.jobs[request.key].job,
                    request_input(before, request),
                    said,
                )
                &&& answer matches Answer::Submitted(a)
                &&& admission_answers(before, request, said, now, after, a)
            }
    } else {
        DecodingView::Accepted
    }
}

/// What a tick keeps.
proof fn lemma_ticked<F: Fn(&Job, &str) -> Decoding>(
    decode: F,
    before: StateView,
    now: Reading,
    after: StateView,
    answer: Answer,
)
    requires
        !before.shutting_down,
        handled(decode, before, Msg::Tick, now, after, answer),
    ensures
        before.within_capacity() ==> after.within_capacity(),
        before.exclusive() ==> after.exclusive(),
        before.active.submap_of(after.active),
        after.faults == before.faults,
        after.limits == before.limits,
        !after.shutting_down,
        after.generation == before.generation,
        after.jobs == surveyed(before, now).0.jobs,
        before.faults != Set::<u128>::empty() ==> after.active == before.active
            && answer->Ticked_0.launches@.len() == 0,
{
    let launches = launch_views(answer->Ticked_0.launches@);
    let survey = surveyed(before, now);
    lemma_surveyed(before, now);
    let (ids, said) = choose|ids: Seq<u128>, said: Seq<DecodingView>| #[trigger]
        all_fired(decode, survey.0, survey.1, now.wall, ids, said, after, launches);
    lemma_submitted(survey.0, survey.1, survey.1.len(), now.wall, ids, said);
}

/// Whether a report about an active run names the job that the run was admitted for.
pub open spec fn keeps_job(before: StateView, msg: Msg) -> bool {
    match msg {
        Msg::Started(id, record) => before.active.contains_key(id@) ==> record@.job
            == before.active[id@].record.job,
        Msg::Progress(id, record, _) => before.active.contains_key(id@) ==> record@.job
            == before.active[id@].record.job,
        _ => true,
    }
}

/// At most one run of a job executes its handler: no message brings a second one, whatever
/// becomes of the definition.
pub proof fn one_run_of_a_job<F: Fn(&Job, &str) -> Decoding>(
    decode: F,
    before: StateView,
    msg: Msg,
    now: Reading,
    after: StateView,
    answer: Answer,
)
    requires
        before.exclusive(),
        keeps_job(before, msg),
        handled(decode, before, msg, now, after, answer),
    ensures
        after.exclusive(),
{
    match msg {
        Msg::Submit(key, id, input, trigger) => {
            let request = asked_run(key, id, input, trigger);
            let said = choose_said(decode, before, request, now.wall, after, answer);
            if admission_fault(before, request, said) is None {
                lemma_admitted(before, request, said, now.wall);
            }
        },
        Msg::Tick => {
            if !before.shutting_down {
                lemma_ticked(decode, before, now, after, answer);
            }
        },
        _ => {
            assert forall|a: u128, b: u128| #[trigger]
                after.active.contains_key(a) && #[trigger] after.active.contains_key(b) && a != b
                    && !after.active[a].skip
                    && !after.active[b].skip implies after.active[a].record.job
                != after.active[b].record.job by {
                assert(before.active.contains_key(a) && before.active.contains_key(b));
            }
        },
    }
}

/// No message gives a registration a generation above the last one given: the generation of a
/// registration tells whether it came before or after another.
pub proof fn generations_are_given_in_order<F: Fn(&Job, &str) -> Decoding>(
    decode: F,
    before: StateView,
    msg: Msg,
    now: Reading,
    after: StateView,
    answer: Answer,
)
    requires
        before.generations_bounded(),
        handled(decode, before, msg, now, after, answer),
        msg matches Msg::Reconcile(_, _, candidates) ==> before.generation + candidates@.len()
            <= u64::MAX,
    ensures
        after.generations_bounded(),
        after.generation >= before.generation,
{
    match msg {
        Msg::Reconcile(scope, revision, candidates) => {
            generations_stay_bounded(
                before,
                scope@,
                revision,
                candidate_views(candidates@),
                now,
            );
        },
        Msg::Tick => {
            if !before.shutting_down {
                lemma_ticked(decode, before, now, after, answer);
                assert forall|key: Seq<char>| #[trigger] after.jobs.contains_key(key) implies
                    after.jobs[key].generation <= after.generation by {
                    assert(after.jobs.dom().contains(key));
                    assert(before.jobs.contains_key(key));
                    assert(moved_on(before.jobs[key], after.jobs[key], now));
                }
            }
        },
        _ => {},
    }
}

/// An active run keeps its permit until it ends: removing or replacing its definition, a
/// cancellation or a shutdown does not release it.
pub proof fn permit_lasts_until_done<F: Fn(&Job, &str) -> Decoding>(
    decode: F,
    before: StateView,
    msg: Msg,
    now: Reading,
    after: StateView,
    answer: Answer,
    id: u128,
)
    requires
        before.active.contains_key(id),
        handled(decode, before, msg, now, after, answer),
        !(msg matches Msg::Done(done) && done@ == id),
    ensures
        after.active.contains_key(id),
{
    match msg {
        Msg::Submit(key, id, input, trigger) => {
            let request = asked_run(key, id, input, trigger);
            let said = choose_said(decode, before, request, now.wall, after, answer);
            if admission_fault(before, request, said) is None {
                lemma_admitted(before, request, said, now.wall);
            }
        },
        Msg::Tick => {
            if !before.shutting_down {
                lemma_ticked(decode, before, now, after, answer);
                assert(after.active.dom().contains(id));
            }
        },
        _ => {},
    }
}

/// A fault of the journal closes admission: while one is open, no submission and no tick starts a
/// run.
pub proof fn fault_closes_admission<F: Fn(&Job, &str) -> Decoding>(
    decode: F,
    before: StateView,
    msg: Msg,
    now: Reading,
    after: StateView,
    answer: Answer,
)
    requires
        before.faults != Set::<u128>::empty(),
        handled(decode, before, msg, now, after, answer),
    ensures
        answer matches Answer::Submitted(said) ==> said is Err && after == before,
        answer matches Answer::Ticked(done, _) ==> done.launches@.len() == 0 && after.active
            == before.active,
{
    match msg {
        Msg::Tick => {
            if !before.shutting_down {
                lemma_ticked(decode, before, now, after, answer);
            }
        },
        _ => {},
    }
}

/// Admission opens again once every owner that met a fault has ended: without faults, no
/// submission is refused on account of the journal.
pub proof fn admission_reopens(before: StateView, id: u128, request: SubmissionView)
    requires
        before.faults.subset_of(set![id]),
    ensures
        with_done(before, id).faults == Set::<u128>::empty(),
        with_maintenance_done(before, id).faults == Set::<u128>::empty(),
        !(request_fault(with_done(before, id), request) matches Some(ErrorView::Journal(_))),
        !(request_fault(with_maintenance_done(before, id), request) matches Some(
            ErrorView::Journal(_),
        )),
{
    assert(before.faults.remove(id) =~= Set::<u128>::empty());
}

/// A service starts empty, within its capacity and with no job running twice.
pub proof fn service_starts_sound(limits: Limits, now: Moment)
    ensures
        started_state(limits, now).within_capacity(),
        started_state(limits, now).exclusive(),
        started_state(limits, now).generations_bounded(),
        started_state(limits, now).faults == Set::<u128>::empty(),
        registrations_fit(started_state(limits, now).jobs),
{
}

/// A service that shuts down starts nothing, and does not go back.
pub proof fn shutdown_starts_nothing<F: Fn(&Job, &str) -> Decoding>(
    decode: F,
    before: StateView,
    msg: Msg,
    now: Reading,
    after: StateView,
    answer: Answer,
)
    requires
        before.shutting_down,
        handled(decode, before, msg, now, after, answer),
    ensures
        after.shutting_down,
        answer matches Answer::Submitted(said) ==> said is Err && after == before,
        answer matches Answer::Ticked(done, _) ==> done.launches@.len() == 0 && after == before,
        answer matches Answer::Reconciled(said) ==> said is Err && after == before,
        answer matches Answer::Started(start) ==> !start,
{
}

/// A service shuts down when it is told to, and by nothing else. The message asks exactly the
/// active runs that can be cancelled to stop, and leaves jobs, scopes and the other runs as they
/// are. The service can stop exactly when it shuts down and neither runs nor maintenance are left.
pub proof fn shutdown_asks_and_waits<F: Fn(&Job, &str) -> Decoding>(
    decode: F,
    before: StateView,
    msg: Msg,
    now: Reading,
    after: StateView,
    answer: Answer,
)
    requires
        handled(decode, before, msg, now, after, answer),
    ensures
        after.shutting_down == (before.shutting_down || msg is Shutdown),
        after.finished() <==> after.shutting_down && after.active.dom() == Set::<u128>::empty()
            && !after.maintaining,
        msg is Shutdown ==> {
            &&& after.jobs == before.jobs
            &&& after.scopes == before.scopes
            &&& after.maintaining == before.maintaining
            &&& after.active.dom() == before.active.dom()
            &&& forall|id: u128| #[trigger]
                before.active.contains_key(id) ==> after.active[id] == if before.active[id].capability
                    == Cancellation::Cooperative {
                    (ActiveView { cancelled: true, ..before.active[id] })
                } else {
                    before.active[id]
                }
        },
{
    match msg {
        Msg::Tick => {
            if !before.shutting_down {
                lemma_ticked(decode, before, now, after, answer);
            }
        },
        Msg::Shutdown => {
            assert(after.active.dom() =~= before.active.dom());
        },
        _ => {},
    }
}

/// A run that is submitted by hand leaves every registration as it is: neither an interval's
/// anchor nor a delay that is not yet over is touched.
pub proof fn manual_run_keeps_schedules<F: Fn(&Job, &str) -> Decoding>(
    decode: F,
    before: StateView,
    key: JobKey,
    id: RunId,
    input: Option<String>,
    trigger: Trigger,
    now: Reading,
    after: StateView,
    answer: Answer,
)
    requires
        handled(decode, before, Msg::Submit(key, id, input, trigger), now, after, answer),
    ensures
        after.jobs == before.jobs,
        after.missed == before.missed,
        after.dropped == before.dropped,
{
}

/// An identifier that is active cannot be submitted again, and the attempt changes nothing.
pub proof fn active_id_is_not_reused<F: Fn(&Job, &str) -> Decoding>(
    decode: F,
    before: StateView,
    key: JobKey,
    id: RunId,
    input: Option<String>,
    trigger: Trigger,
    now: Reading,
    after: StateView,
    answer: Answer,
)
    requires
        before.active.contains_key(id@),
        handled(decode, before, Msg::Submit(key, id, input, trigger), now, after, answer),
    ensures
        after == before,
        answer matches Answer::Submitted(Err(e)) && e@ == ErrorView::AlreadySubmitted(id@),
{
}

/// What waiters of an active run were shown stays shown, or is replaced by a later terminal
/// record.
pub proof fn shown_result_stays<F: Fn(&Job, &str) -> Decoding>(
    decode: F,
    before: StateView,
    msg: Msg,
    now: Reading,
    after: StateView,
    answer: Answer,
    id: u128,
)
    requires
        before.active.contains_key(id),
        before.active[id].published is Some,
        after.active.contains_key(id),
        handled(decode, before, msg, now, after, answer),
    ensures
        after.active[id].published is Some,
        after.active[id].published == before.active[id].published || (
        msg matches Msg::Progress(about, record, _) && about@ == id
            && after.active[id].published == Some(record@) && record@.terminal()),
{
    match msg {
        Msg::Submit(key, id, input, trigger) => {
            let request = asked_run(key, id, input, trigger);
            let said = choose_said(decode, before, request, now.wall, after, answer);
            if admission_fault(before, request, said) is None {
                lemma_admitted(before, request, said, now.wall);
            }
        },
        Msg::Tick => {
            if !before.shutting_down {
                lemma_ticked(decode, before, now, after, answer);
                assert(before.active.dom().contains(id));
            }
        },
        _ => {},
    }
}

/// A cancellation is only asked for, never carried out: it changes no more than the run's state
/// and its request, and a run that is finalizing or finished is not touched.
pub proof fn cancellation_is_a_request(before: StateView, id: u128)
    requires
        before.active.contains_key(id),
    ensures
        ({
            let after = with_cancel(before, id);
            let run = after.active[id];
            &&& after.active.dom() == before.active.dom()
            &&& run.published == before.active[id].published
            &&& run.record.job == before.active[id].record.job
            &&& before.active[id].record.terminal() ==> after == before
            &&& before.active[id].capability == Cancellation::Unsupported ==> after == before
        }),
{
    assert(with_cancel(before, id).active.dom() =~= before.active.dom());
}

/// A wall clock that is set back replays nothing: the instant of a calendar pattern that a tick
/// leaves lies after the instant that it consumed, and after now.
pub proof fn clock_rollback_replays_nothing<F: Fn(&Job, &str) -> Decoding>(
    decode: F,
    before: StateView,
    now: Reading,
    after: StateView,
    answer: Answer,
    key: Seq<char>,
)
    requires
        handled(decode, before, Msg::Tick, now, after, answer),
        !before.shutting_down,
        before.jobs.contains_key(key),
        before.jobs[key].job.definition.schedule is Cron,
        fires(before.jobs[key], now),
        before.jobs[key].timing.next is Some,
        after.jobs[key].timing.next is Some,
    ensures
        after.jobs[key].timing.next->0.nanos > before.jobs[key].timing.next->0.nanos,
        after.jobs[key].timing.next->0.nanos > now.wall.nanos,
{
    assert(moved_on(before.jobs[key], after.jobs[key], now));
}

} // verus!
