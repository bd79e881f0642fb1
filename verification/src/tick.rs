//! Ticks of the timer: which jobs are due, what they start, and when to look again.

use vstd::prelude::*;
use crate::admission::{
    admission_answers, admission_fault, launch_of, request_fault, request_input, with_admitted,
    Launch, LaunchView, Submission, SubmissionView,
};
use crate::ids::{is_random_uuid, RunId};
use crate::job::{Decoding, DecodingView, Job, JobView};
use crate::model::{error_text, JobKey, Trigger};
use crate::schedule::{
    advance, is_due, lateness, next_timing, not_replayed, schedule_trigger, Timing,
};
use crate::sorted::in_order;
use crate::state::{
    registered_as, Registration, RegistrationView, ScopeSnapshot, ScopeView, State, StateView,
};
use crate::text::byte_len;
use crate::time::{Moment, Reading, Span, Timestamp};

verus! {

/// The time between two idle maintenances, in nanoseconds.
pub const MAINTENANCE_PERIOD: u128 = 60_000_000_000;

/// The longest time between two ticks, in nanoseconds: the wall clock is looked at that often.
pub const LONGEST_TICK: u128 = 5_000_000_000;

/// A job that a tick found due and not too late.
#[derive(Debug)]
pub struct Due {
    pub key: JobKey,
    pub trigger: Trigger,
    pub scheduled: Option<Timestamp>,
}

pub struct DueView {
    pub key: Seq<char>,
    pub trigger: Trigger,
    pub scheduled: Option<Timestamp>,
}

impl View for Due {
    type V = DueView;

    open spec fn view(&self) -> DueView {
        DueView { key: self.key@, trigger: self.trigger, scheduled: self.scheduled }
    }
}

/// The contents of a list of due jobs.
pub open spec fn due_views(dues: Seq<Due>) -> Seq<DueView> {
    dues.map_values(|due: Due| due@)
}

/// The contents of a list of runs to be started.
pub open spec fn launch_views(launches: Seq<Launch>) -> Seq<LaunchView> {
    launches.map_values(|launch: Launch| launch@)
}

/// The contents of a run that is perhaps started.
pub open spec fn launch_view(launch: Option<Launch>) -> Option<LaunchView> {
    match launch {
        Some(run) => Some(run@),
        None => None,
    }
}

/// One more, up to the largest number.
pub open spec fn counted(n: u64) -> u64 {
    if n == u64::MAX {
        n
    } else {
        (n + 1) as u64
    }
}

/// Whether idle maintenance is to be started.
pub open spec fn maintenance_due(state: StateView, now: Reading) -> bool {
    !state.maintaining && now.mono.nanos >= state.maintenance_due.nanos
}

/// The state after a tick looked at idle maintenance.
pub open spec fn with_maintenance(state: StateView, now: Reading) -> StateView {
    if maintenance_due(state, now) {
        StateView {
            maintaining: true,
            maintenance_due: Moment { nanos: (now.mono.nanos + MAINTENANCE_PERIOD) as u128 },
            ..state
        }
    } else {
        state
    }
}

/// Whether a registration fires at a tick.
pub open spec fn fires(registration: RegistrationView, now: Reading) -> bool {
    is_due(registration.timing, now) && schedule_trigger(
        registration.job.definition.schedule,
    ) is Some
}

/// Whether a registration that fires is too late to start a run.
pub open spec fn too_late(state: StateView, registration: RegistrationView, now: Reading) -> bool {
    lateness(registration.timing, now) > state.limits.lateness.nanos
}

/// The state after a tick looked at one job: a job that fires gets its next deadline, a pattern
/// that does not occur again leaves its error with the scope, and a trigger that comes too late is
/// counted as missed.
pub open spec fn with_looked_at(state: StateView, key: Seq<char>, now: Reading) -> StateView {
    let registration = state.jobs[key];
    if fires(registration, now) {
        let definition = registration.job.definition;
        let next = next_timing(definition.schedule, registration.timing, now);
        StateView {
            jobs: state.jobs.insert(key, RegistrationView { timing: next.0, ..registration }),
            scopes: match next.1 {
                Some(e) => if state.scopes.contains_key(definition.scope) {
                    state.scopes.insert(
                        definition.scope,
                        ScopeView {
                            last_error: Some(error_text(e)),
                            ..state.scopes[definition.scope]
                        },
                    )
                } else {
                    state.scopes
                },
                None => state.scopes,
            },
            missed: if too_late(state, registration, now) {
                counted(state.missed)
            } else {
                state.missed
            },
            ..state
        }
    } else {
        state
    }
}

/// What a tick starts for one job.
pub open spec fn due_of(state: StateView, key: Seq<char>, now: Reading) -> Seq<DueView> {
    let registration = state.jobs[key];
    if fires(registration, now) && !too_late(state, registration, now) {
        seq![
            DueView {
                key,
                trigger: schedule_trigger(registration.job.definition.schedule)->0,
                scheduled: registration.timing.next,
            },
        ]
    } else {
        Seq::empty()
    }
}

/// The state after a tick looked at the first `n` of some jobs, and what is due among them.
pub open spec fn looked_at(
    state: StateView,
    keys: Seq<Seq<char>>,
    n: nat,
    now: Reading,
) -> (StateView, Seq<DueView>)
    decreases n,
{
    if n == 0 {
        (state, Seq::empty())
    } else {
        let before = looked_at(state, keys, (n - 1) as nat, now);
        let key = keys[n - 1];
        (with_looked_at(before.0, key, now), before.1 + due_of(before.0, key, now))
    }
}

/// The submission of a due job: a collision with an active run is only recorded.
pub open spec fn due_request(state: StateView, due: DueView, id: u128) -> SubmissionView {
    SubmissionView {
        key: due.key,
        id,
        input: None,
        trigger: due.trigger,
        scheduled: due.scheduled,
        skip: state.occupied(due.key),
    }
}

/// The state after a due job was submitted under an identifier, with what its decoder said, and
/// the run started, if any. A refused trigger is counted as dropped.
pub open spec fn fired(
    state: StateView,
    due: DueView,
    now: Timestamp,
    id: u128,
    said: DecodingView,
) -> (StateView, Option<LaunchView>) {
    let request = due_request(state, due, id);
    match admission_fault(state, request, said) {
        Some(_) => (StateView { dropped: counted(state.dropped), ..state }, None),
        None => (with_admitted(state, request, now), Some(launch_of(state, request, now))),
    }
}

/// The state after the first `n` due jobs were submitted under given identifiers, with given
/// answers of their decoders, and the runs started.
pub open spec fn submitted(
    state: StateView,
    dues: Seq<DueView>,
    n: nat,
    now: Timestamp,
    ids: Seq<u128>,
    said: Seq<DecodingView>,
) -> (StateView, Seq<LaunchView>)
    decreases n,
{
    if n == 0 {
        (state, Seq::empty())
    } else {
        let before = submitted(state, dues, (n - 1) as nat, now, ids, said);
        let one = fired(before.0, dues[n - 1], now, ids[n - 1], said[n - 1]);
        (
            one.0,
            match one.1 {
                Some(launch) => before.1.push(launch),
                None => before.1,
            },
        )
    }
}

/// The state after a tick looked at everything, and what is due.
pub open spec fn surveyed(state: StateView, now: Reading) -> (StateView, Seq<DueView>) {
    let begun = with_maintenance(state, now);
    let keys = in_order::<String>(begun.jobs.dom());
    looked_at(begun, keys, keys.len(), now)
}

/// Whether a decoder may say something of an input of a job.
pub open spec fn heard<F: Fn(&Job, &str) -> Decoding>(
    decode: F,
    job: JobView,
    input: Seq<char>,
    said: DecodingView,
) -> bool {
    exists|j: &Job, text: &str, d: Decoding|
        j@ == job && text@ == input && d@ == said && #[trigger] call_ensures(decode, (j, text), d)
}

/// What a tick asks of its owner.
#[derive(Debug)]
pub struct Ticked {
    /// Whether to start idle maintenance.
    pub maintain: bool,
    /// The runs to start.
    pub launches: Vec<Launch>,
}

/// Whether a submission gets as far as its decoder.
pub open spec fn reaches_decoder(state: StateView, request: SubmissionView) -> bool {
    request_fault(state, request) is None && byte_len(request_input(state, request))
        <= state.limits.input_bytes
}

/// Whether what was said of a due job is what the decoder says of its default input, if it was
/// asked.
pub open spec fn said_of<F: Fn(&Job, &str) -> Decoding>(
    decode: F,
    state: StateView,
    due: DueView,
    id: u128,
    said: DecodingView,
) -> bool {
    reaches_decoder(state, due_request(state, due, id)) ==> heard(
        decode,
        state.jobs[due.key].job,
        state.jobs[due.key].job.input,
        said,
    )
}

/// Whether what was said of the first `n` due jobs is what the decoder says of them.
pub open spec fn said_by<F: Fn(&Job, &str) -> Decoding>(
    decode: F,
    state: StateView,
    dues: Seq<DueView>,
    n: nat,
    now: Timestamp,
    ids: Seq<u128>,
    said: Seq<DecodingView>,
) -> bool {
    forall|i: int|
        0 <= i < n ==> said_of(
            decode,
            submitted(state, dues, i as nat, now, ids, said).0,
            dues[i],
            ids[i],
            #[trigger] said[i],
        )
}

/// Whether a state and a list of runs are what comes of submitting all that is due, under random
/// identifiers and with what the decoder says.
pub open spec fn all_fired<F: Fn(&Job, &str) -> Decoding>(
    decode: F,
    state: StateView,
    dues: Seq<DueView>,
    now: Timestamp,
    ids: Seq<u128>,
    said: Seq<DecodingView>,
    after: StateView,
    launches: Seq<LaunchView>,
) -> bool {
    &&& ids.len() == dues.len()
    &&& said.len() == dues.len()
    &&& forall|i: int| 0 <= i < ids.len() ==> #[trigger] is_random_uuid(ids[i])
    &&& said_by(decode, state, dues, dues.len(), now, ids, said)
    &&& (after, launches) == submitted(state, dues, dues.len(), now, ids, said)
}

/// Whether a state and a list of runs are what a tick makes of a state.
pub open spec fn ticked<F: Fn(&Job, &str) -> Decoding>(
    decode: F,
    state: StateView,
    now: Reading,
    after: StateView,
    launches: Seq<LaunchView>,
) -> bool {
    let survey = surveyed(state, now);
    exists|ids: Seq<u128>, said: Seq<DecodingView>| #[trigger]
        all_fired(decode, survey.0, survey.1, now.wall, ids, said, after, launches)
}

/// Whether a tick left a registration as it should: one that did not fire is unchanged, and the
/// next instant of a calendar pattern that fired lies after now and after the instant consumed.
pub open spec fn moved_on(before: RegistrationView, after: RegistrationView, now: Reading) -> bool {
    &&& after.job == before.job
    &&& after.generation == before.generation
    &&& !fires(before, now) ==> after == before
    &&& fires(before, now) && before.job.definition.schedule is Cron ==> not_replayed(
        before.timing,
        after.timing,
        now,
    )
}

/// Whether a tick left every registration as it should.
pub open spec fn all_moved_on(
    before: Map<Seq<char>, RegistrationView>,
    after: Map<Seq<char>, RegistrationView>,
    now: Reading,
) -> bool {
    &&& after.dom() == before.dom()
    &&& forall|key: Seq<char>| #[trigger]
        before.contains_key(key) ==> moved_on(before[key], after[key], now)
}

/// Submitting what is due leaves every registration as it is.
proof fn lemma_submitted_jobs(
    state: StateView,
    dues: Seq<DueView>,
    n: nat,
    now: Timestamp,
    ids: Seq<u128>,
    said: Seq<DecodingView>,
)
    ensures
        submitted(state, dues, n, now, ids, said).0.jobs == state.jobs,
    decreases n,
{
    if n > 0 {
        lemma_submitted_jobs(state, dues, (n - 1) as nat, now, ids, said);
    }
}

/// Adding an identifier and an answer changes nothing of the submissions before.
proof fn lemma_submitted_prefix(
    state: StateView,
    dues: Seq<DueView>,
    n: nat,
    now: Timestamp,
    ids: Seq<u128>,
    said: Seq<DecodingView>,
    id: u128,
    d: DecodingView,
)
    requires
        n <= ids.len(),
        n <= said.len(),
    ensures
        submitted(state, dues, n, now, ids.push(id), said.push(d)) == submitted(
            state,
            dues,
            n,
            now,
            ids,
            said,
        ),
    decreases n,
{
    if n > 0 {
        lemma_submitted_prefix(state, dues, (n - 1) as nat, now, ids, said, id, d);
    }
}

/// One more due job, submitted under its identifier with what its decoder said.
proof fn lemma_submitted_more<F: Fn(&Job, &str) -> Decoding>(
    decode: F,
    state: StateView,
    dues: Seq<DueView>,
    n: nat,
    now: Timestamp,
    ids: Seq<u128>,
    said: Seq<DecodingView>,
    id: u128,
    d: DecodingView,
)
    requires
        n < dues.len(),
        ids.len() == n,
        said.len() == n,
        said_by(decode, state, dues, n, now, ids, said),
        said_of(decode, submitted(state, dues, n, now, ids, said).0, dues[n as int], id, d),
    ensures
        said_by(decode, state, dues, n + 1, now, ids.push(id), said.push(d)),
        ({
            let before = submitted(state, dues, n, now, ids, said);
            let one = fired(before.0, dues[n as int], now, id, d);
            submitted(state, dues, n + 1, now, ids.push(id), said.push(d)) == (
                one.0,
                match one.1 {
                    Some(launch) => before.1.push(launch),
                    None => before.1,
                },
            )
        }),
{
    lemma_submitted_prefix(state, dues, n, now, ids, said, id, d);
    let more_ids = ids.push(id);
    let more = said.push(d);
    assert forall|i: int| 0 <= i < n + 1 implies said_of(
        decode,
        submitted(state, dues, i as nat, now, more_ids, more).0,
        dues[i],
        more_ids[i],
        #[trigger] more[i],
    ) by {
        lemma_submitted_prefix(state, dues, i as nat, now, ids, said, id, d);
        if i < n {
            assert(more[i] == said[i]);
        }
    }
}

impl State {
    /// Looks at every job, in the order of their keys.
    fn survey(&mut self, now: Reading) -> (dues: Vec<Due>)
        requires
            old(self).wf(),
            now.usable(),
        ensures
            final(self).wf(),
            ({
                let keys = in_order::<String>(old(self)@.jobs.dom());
                let after = looked_at(old(self)@, keys, keys.len(), now);
                &&& final(self)@ == after.0
                &&& due_views(dues@) == after.1
            }),
            all_moved_on(old(self)@.jobs, final(self)@.jobs, now),
    {
        let ghost start = self@;
        let ghost origin = self.jobs;
        let ghost keys = self.jobs.keys();
        let mut dues: Vec<Due> = Vec::new();
        let mut i: usize = 0;
        proof {
            self.jobs.lemma_keys();
            assert(due_views(dues@) =~= Seq::<DueView>::empty());
        }
        while i < self.jobs.items.len()
            invariant
                self.wf(),
                now.usable(),
                i <= self.jobs.items@.len(),
                self.jobs.items@.len() == keys.len(),
                self.jobs.keys() == keys,
                self@ == looked_at(start, keys, i as nat, now).0,
                due_views(dues@) == looked_at(start, keys, i as nat, now).1,
                origin.wf(),
                origin@ == start.jobs,
                origin.keys() == keys,
                self.jobs@.dom() == origin@.dom(),
                forall|j: int|
                    0 <= j < i ==> moved_on(
                        origin@[#[trigger] keys[j]],
                        self.jobs@[keys[j]],
                        now,
                    ),
                forall|j: int|
                    i <= j < keys.len() ==> self.jobs@[#[trigger] keys[j]] == origin@[keys[j]],
            decreases self.jobs.items@.len() - i,
        {
            let ghost before = self@;
            let ghost listed = due_views(dues@);
            let ghost key = keys[i as int];
            proof {
                self.jobs.lemma_keys();
                self.jobs.lemma_entry(i as int);
                assert(self.jobs.key_at(i as int) == key);
                assert(registered_as(before.jobs[key], key));
            }
            let timing = self.jobs.items[i].1.timing;
            if timing.due(now) {
                match self.jobs.items[i].1.job.definition.schedule.trigger() {
                    None => {},
                    Some(trigger) => {
                        let late = timing.late(now);
                        let (next, error) = advance(
                            &self.jobs.items[i].1.job.definition.schedule,
                            &timing,
                            now,
                        );
                        match error {
                            Some(e) => {
                                let scope = self.jobs.items[i].1.job.definition.scope.clone();
                                match self.scopes.find(&scope) {
                                    Some(at) => {
                                        let source: u64 = self.scopes.items[at].1.source_revision;
                                        let applied = self.scopes.items[at].1.applied_revision;
                                        let snapshot = ScopeSnapshot {
                                            source_revision: source,
                                            applied_revision: applied,
                                            last_error: Some(e.text()),
                                        };
                                        self.scopes.set(at, snapshot);
                                    },
                                    None => {},
                                }
                            },
                            None => {},
                        }
                        let job = self.jobs.items[i].1.job.clone();
                        let generation: u64 = self.jobs.items[i].1.generation;
                        let name = self.jobs.items[i].0.clone();
                        let ghost held = self.jobs;
                        self.jobs.set(i, Registration { job, generation, timing: next });
                        proof {
                            assert forall|k: Seq<char>| #[trigger]
                                self.jobs@.contains_key(k) implies registered_as(
                                self.jobs@[k],
                                k,
                            ) by {
                                if k != key {
                                    assert(held@.contains_key(k));
                                }
                            }
                            assert(self.jobs.keys() =~= keys) by {
                                assert forall|j: int| 0 <= j < keys.len() implies self.jobs.keys()[j]
                                    == keys[j] by {
                                    assert(held.keys()[j] == held.key_at(j));
                                    assert(self.jobs.items@[j].0 == held.items@[j].0);
                                }
                            }
                        }
                        if late.nanos > self.limits.lateness.nanos {
                            self.missed = self.missed.saturating_add(1);
                        } else {
                            dues.push(Due { key: name, trigger, scheduled: timing.next });
                        }
                    },
                }
            }
            proof {
                assert(self@ == with_looked_at(before, key, now));
                assert(due_views(dues@) =~= listed + due_of(before, key, now));
                origin.lemma_keys();
                assert(self.jobs@.dom() =~= origin@.dom());
                assert forall|j: int| 0 <= j < keys.len() && j != i implies #[trigger] keys[j]
                    != key by {
                    origin.lemma_entry(j);
                    origin.lemma_entry(i as int);
                }
                assert(moved_on(origin@[keys[i as int]], self.jobs@[keys[i as int]], now));
            }
            i = i + 1;
        }
        proof {
            assert forall|key: Seq<char>| #[trigger] origin@.contains_key(key) implies moved_on(
                origin@[key],
                self.jobs@[key],
                now,
            ) by {
                origin.lemma_key(key);
                origin.lemma_keys();
                assert(keys[origin.position(key)] == key);
            }
        }
        dues
    }

    /// Submits a due job under an identifier: a refused trigger is counted as dropped.
    pub fn fire<F: Fn(&Job, &str) -> Decoding>(
        &mut self,
        due: &Due,
        id: RunId,
        now: Timestamp,
        decode: F,
    ) -> (launch: Option<Launch>)
        requires
            old(self).wf(),
            forall|job: &Job, text: &str| call_requires(decode, (job, text)),
        ensures
            final(self).wf(),
            exists|said: DecodingView|
                {
                    &&& (final(self)@, launch_view(launch)) == #[trigger] fired(
                        old(self)@,
                        due@,
                        now,
                        id@,
                        said,
                    )
                    &&& said_of(decode, old(self)@, due@, id@, said)
                },
    {
        let skip = self.busy(due.key.as_str());
        let request = Submission {
            key: due.key.clone(),
            id,
            input: None,
            trigger: due.trigger,
            scheduled: due.scheduled,
            skip,
        };
        let ghost before = self@;
        let ghost asked = request@;
        assert(asked == due_request(before, due@, id@));
        let answer = self.admit_run(request, now, decode);
        let ghost mut said = DecodingView::Accepted;
        proof {
            if reaches_decoder(before, asked) {
                let (job, text, d) = choose|job: &Job, text: &str, d: Decoding|
                    {
                        &&& job@ == before.jobs[asked.key].job
                        &&& text@ == request_input(before, asked)
                        &&& #[trigger] call_ensures(decode, (job, text), d)
                        &&& admission_answers(before, asked, d@, now, self@, answer)
                    };
                said = d@;
                assert(heard(decode, before.jobs[asked.key].job, request_input(before, asked), d@));
            }
            assert(admission_answers(before, asked, said, now, self@, answer));
            assert(said_of(decode, before, due@, id@, said));
        }
        match answer {
            Ok(launch) => {
                assert((self@, Some(launch@)) == fired(before, due@, now, id@, said));
                Some(launch)
            },
            Err(_) => {
                self.dropped = self.dropped.saturating_add(1);
                assert((self@, None::<LaunchView>) == fired(before, due@, now, id@, said));
                None
            },
        }
    }

    /// Submits what is due, in order, each under a fresh random identifier.
    #[verifier::rlimit(40)]
    fn fire_all<F: Fn(&Job, &str) -> Decoding + Copy>(
        &mut self,
        dues: &Vec<Due>,
        now: Timestamp,
        decode: F,
    ) -> (launches: Vec<Launch>)
        requires
            old(self).wf(),
            forall|job: &Job, text: &str| call_requires(decode, (job, text)),
        ensures
            final(self).wf(),
            exists|ids: Seq<u128>, said: Seq<DecodingView>| #[trigger]
                all_fired(
                    decode,
                    old(self)@,
                    due_views(dues@),
                    now,
                    ids,
                    said,
                    final(self)@,
                    launch_views(launches@),
                ),
            final(self)@.jobs == old(self)@.jobs,
    {
        let mut launches: Vec<Launch> = Vec::new();
        let ghost base = self@;
        let ghost due = due_views(dues@);
        let ghost mut ids: Seq<u128> = Seq::empty();
        let ghost mut said: Seq<DecodingView> = Seq::empty();
        let mut i: usize = 0;
        assert(launch_views(launches@) =~= Seq::<LaunchView>::empty());
        while i < dues.len()
            invariant
                self.wf(),
                i <= dues@.len(),
                due == due_views(dues@),
                ids.len() == i,
                said.len() == i,
                (self@, launch_views(launches@)) == submitted(base, due, i as nat, now, ids, said),
                forall|k: int| 0 <= k < ids.len() ==> #[trigger] is_random_uuid(ids[k]),
                said_by(decode, base, due, i as nat, now, ids, said),
                forall|job: &Job, text: &str| call_requires(decode, (job, text)),
            decreases dues@.len() - i,
        {
            let id = RunId::new_v4();
            assert(due[i as int] == dues@[i as int]@);
            let ghost before = self@;
            let ghost listed = launch_views(launches@);
            let launch = self.fire(&dues[i], id, now, decode);
            proof {
                let d = choose|d: DecodingView|
                    {
                        &&& (self@, launch_view(launch)) == #[trigger] fired(
                            before,
                            due[i as int],
                            now,
                            id@,
                            d,
                        )
                        &&& said_of(decode, before, due[i as int], id@, d)
                    };
                lemma_submitted_more(decode, base, due, i as nat, now, ids, said, id@, d);
                let more_ids = ids.push(id@);
                assert forall|k: int| 0 <= k < more_ids.len() implies #[trigger] is_random_uuid(
                    more_ids[k],
                ) by {
                    if k < i {
                        assert(is_random_uuid(ids[k]));
                    }
                }
                ids = more_ids;
                said = said.push(d);
            }
            match launch {
                Some(run) => {
                    let ghost view = run@;
                    launches.push(run);
                    assert(launch_views(launches@) =~= listed.push(view));
                },
                None => {},
            }
            i = i + 1;
        }
        proof {
            assert(all_fired(decode, base, due, now, ids, said, self@, launch_views(launches@)));
            lemma_submitted_jobs(base, due, due.len(), now, ids, said);
        }
        launches
    }

    /// Acts on a tick of the timer: starts idle maintenance once a minute, moves on what is due,
    /// and submits it. `decode` tells what a job's decoder makes of its default input.
    pub fn tick<F: Fn(&Job, &str) -> Decoding + Copy>(&mut self, now: Reading, decode: F) -> (done:
        Ticked)
        requires
            old(self).wf(),
            now.usable(),
            forall|job: &Job, text: &str| call_requires(decode, (job, text)),
        ensures
            final(self).wf(),
            done.maintain == (!old(self)@.shutting_down && maintenance_due(old(self)@, now)),
            old(self)@.shutting_down ==> final(self)@ == old(self)@ && done.launches@.len() == 0,
            !old(self)@.shutting_down ==> ticked(
                decode,
                old(self)@,
                now,
                final(self)@,
                launch_views(done.launches@),
            ),
            !old(self)@.shutting_down ==> all_moved_on(old(self)@.jobs, final(self)@.jobs, now),
    {
        if self.shutting_down {
            return Ticked { maintain: false, launches: Vec::new() };
        }
        let maintain = !self.maintaining && now.mono.nanos >= self.maintenance_due.nanos;
        if maintain {
            self.maintaining = true;
            self.maintenance_due = Moment { nanos: now.mono.nanos + MAINTENANCE_PERIOD };
        }
        assert(self@ == with_maintenance(old(self)@, now));
        let dues = self.survey(now);
        assert((self@, due_views(dues@)) == surveyed(old(self)@, now));
        let ghost base = self@;
        let launches = self.fire_all(&dues, now.wall, decode);
        proof {
            let (ids, said) = choose|ids: Seq<u128>, said: Seq<DecodingView>| #[trigger]
                all_fired(
                    decode,
                    base,
                    due_views(dues@),
                    now.wall,
                    ids,
                    said,
                    self@,
                    launch_views(launches@),
                );
            let survey = surveyed(old(self)@, now);
            assert(all_fired(
                decode,
                survey.0,
                survey.1,
                now.wall,
                ids,
                said,
                self@,
                launch_views(launches@),
            ));
            assert(ticked(decode, old(self)@, now, self@, launch_views(launches@)));
        }
        Ticked { maintain, launches }
    }

    /// How long to wait before the next tick: until the nearest deadline, and five seconds at
    /// most.
    pub fn next_tick(&self, now: Reading) -> (wait: Span)
        requires
            self.wf(),
            now.usable(),
        ensures
            wait.nanos <= LONGEST_TICK,
            forall|key: Seq<char>| #[trigger]
                self@.jobs.contains_key(key) ==> (time_left(self@.jobs[key].timing, now) matches Some(
                    left,
                ) ==> wait.nanos <= left),
            wait.nanos == LONGEST_TICK || exists|key: Seq<char>| #[trigger]
                self@.jobs.contains_key(key) && time_left(self@.jobs[key].timing, now) == Some(
                    wait.nanos as nat,
                ),
    {
        let mut wait = Span { nanos: LONGEST_TICK };
        let mut i: usize = 0;
        while i < self.jobs.items.len()
            invariant
                self.wf(),
                now.usable(),
                i <= self.jobs.items@.len(),
                wait.nanos <= LONGEST_TICK,
                forall|j: int|
                    0 <= j < i ==> (time_left((#[trigger] self.jobs.items@[j]).1.timing, now) matches Some(
                        left,
                    ) ==> wait.nanos <= left),
                wait.nanos == LONGEST_TICK || exists|j: int|
                    0 <= j < i && time_left((#[trigger] self.jobs.items@[j]).1.timing, now) == Some(
                        wait.nanos as nat,
                    ),
            decreases self.jobs.items@.len() - i,
        {
            proof {
                self.jobs.lemma_entry(i as int);
                assert(registered_as(self.jobs.items@[i as int].1@, self.jobs.key_at(i as int)));
            }
            let timing = self.jobs.items[i].1.timing;
            let left = match timing.deadline {
                Some(deadline) => Some(deadline.span_since(now.mono)),
                None => match timing.next {
                    Some(at) => Some(at.span_since(now.wall)),
                    None => None,
                },
            };
            assert(match left {
                Some(span) => time_left(self.jobs.items@[i as int].1.timing, now) == Some(
                    span.nanos as nat,
                ),
                None => time_left(self.jobs.items@[i as int].1.timing, now) is None,
            });
            match left {
                Some(span) => {
                    if span.nanos < wait.nanos {
                        wait = span;
                    }
                },
                None => {},
            }
            i = i + 1;
        }
        proof {
            assert forall|key: Seq<char>| #[trigger] self@.jobs.contains_key(key) implies (
            time_left(self@.jobs[key].timing, now) matches Some(left) ==> wait.nanos <= left) by {
                self.jobs.lemma_key(key);
                let p = self.jobs.position(key);
                assert(self.jobs.items@[p].1.timing == self@.jobs[key].timing);
            }
            if wait.nanos != LONGEST_TICK {
                let j = choose|j: int|
                    0 <= j < self.jobs.items@.len() && time_left(
                        (#[trigger] self.jobs.items@[j]).1.timing,
                        now,
                    ) == Some(wait.nanos as nat);
                self.jobs.lemma_entry(j);
                assert(self@.jobs.contains_key(self.jobs.key_at(j)));
            }
        }
        wait
    }
}

/// The time left until a job is due, if it is ever due.
pub open spec fn time_left(timing: Timing, now: Reading) -> Option<nat> {
    match timing.deadline {
        Some(deadline) => Some(deadline.since(now.mono)),
        None => match timing.next {
            Some(at) => Some(at.since(now.wall)),
            None => None,
        },
    }
}

/// A trigger that collides with an active run of its job starts no handler: it gets a run that
/// only records the collision, or counts as dropped.
pub proof fn collision_is_recorded_or_counted(
    state: StateView,
    due: DueView,
    now: Timestamp,
    id: u128,
    said: DecodingView,
)
    requires
        state.occupied(due.key),
    ensures
        ({
            let next = fired(state, due, now, id, said);
            match next.1 {
                Some(launch) => launch.skip && next.0.dropped == state.dropped,
                None => next.0.dropped == counted(state.dropped) && next.0.active == state.active,
            }
        }),
{
}

/// A trigger that comes too late starts nothing and counts as missed once, however many periods
/// went by; a trigger in time does not count.
pub proof fn late_trigger_is_counted_once(state: StateView, key: Seq<char>, now: Reading)
    requires
        fires(state.jobs[key], now),
    ensures
        too_late(state, state.jobs[key], now) ==> due_of(state, key, now).len() == 0
            && with_looked_at(state, key, now).missed == counted(state.missed),
        !too_late(state, state.jobs[key], now) ==> due_of(state, key, now).len() == 1
            && with_looked_at(state, key, now).missed == state.missed,
{
}

/// A single delay fires once: after a tick at which it was due, in time or not, it is never due
/// again.
pub proof fn single_delay_fires_once(
    state: StateView,
    key: Seq<char>,
    now: Reading,
    later: Reading,
)
    requires
        state.jobs[key].job.definition.schedule is Once,
        fires(state.jobs[key], now),
    ensures
        !fires(with_looked_at(state, key, now).jobs[key], later),
{
}

} // verus!
