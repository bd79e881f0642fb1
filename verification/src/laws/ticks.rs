//! What a tick does to every job, and what it starts.

use vstd::prelude::*;
use vstd::utf8::encode_utf8;
use crate::admission::LaunchView;
use crate::ids::is_random_uuid;
use crate::job::{Decoding, DecodingView, Job};
use crate::laws::requests::has_run_of;
use crate::laws::snapshots::{looked_into, noted_revision_never_falls, revision_is_noted};
use crate::laws::timing::{can_be_read, continues};
use crate::model::{error_text, ErrorView, RunRecordView, RunStateView, Trigger};
use crate::reconcile::{candidate_views, Candidate};
use crate::schedule::{next_timing, ScheduleView};
use crate::service::{handled, Answer, Msg};
use crate::sorted::in_order;
use crate::state::{RegistrationView, ScopeView, State, StateView};
use crate::tick::{
    all_fired, due_of, fired, heard, launch_views, looked_at, said_by, said_of, submitted, surveyed,
    with_looked_at, with_maintenance, DueView, Ticked,
};
use crate::time::{Reading, Span, Timestamp};

verus! {

/// Whether a job's time has come: it has a schedule of its own, and its deadline has come by the
/// monotonic clock or, where it has none, its instant by the wall clock.
pub open spec fn has_come(registration: RegistrationView, now: Reading) -> bool {
    !(registration.job.definition.schedule is Manual) && match registration.timing.deadline {
        Some(deadline) => deadline.nanos <= now.mono.nanos,
        None => registration.timing.next is Some && registration.timing.next->0.nanos
            <= now.wall.nanos,
    }
}

/// How long ago a job's time came.
pub open spec fn came_ago(registration: RegistrationView, now: Reading) -> int {
    match registration.timing.deadline {
        Some(deadline) => now.mono.nanos - deadline.nanos,
        None => now.wall.nanos - registration.timing.next->0.nanos,
    }
}

/// Whether a job's time has come no longer ago than the lateness that the service allows.
pub open spec fn came_in_time(state: StateView, key: Seq<char>, now: Reading) -> bool {
    has_come(state.jobs[key], now) && came_ago(state.jobs[key], now)
        <= state.limits.lateness.nanos
}

/// Whether a job's time has come too long ago.
pub open spec fn came_too_late(state: StateView, key: Seq<char>, now: Reading) -> bool {
    has_come(state.jobs[key], now) && came_ago(state.jobs[key], now) > state.limits.lateness.nanos
}

/// The trigger under which a job fires.
pub open spec fn own_trigger(schedule: ScheduleView) -> Trigger {
    match schedule {
        ScheduleView::Once { .. } => Trigger::Once,
        ScheduleView::Interval { .. } => Trigger::Interval,
        _ => Trigger::Cron,
    }
}

/// What a tick asks to start for a job: under its own trigger, for the instant it waited for.
pub open spec fn due_entry(state: StateView, key: Seq<char>) -> DueView {
    DueView {
        key,
        trigger: own_trigger(state.jobs[key].job.definition.schedule),
        scheduled: state.jobs[key].timing.next,
    }
}

/// A number that was counted up, and stops at the largest.
pub open spec fn counted_up(from: u64, by: nat) -> int {
    if from + by > u64::MAX {
        u64::MAX as int
    } else {
        from + by
    }
}

/// Whether a calendar job came and its pattern does not occur again, with the complaint.
pub open spec fn runs_out(registration: RegistrationView, now: Reading) -> Option<ErrorView> {
    if has_come(registration, now) {
        next_timing(
            registration.job.definition.schedule,
            registration.timing,
            now,
        ).1
    } else {
        None
    }
}

/// A list of distinct keys of a state's jobs.
pub open spec fn lists_jobs(state: StateView, keys: Seq<Seq<char>>) -> bool {
    &&& forall|i: int| 0 <= i < keys.len() ==> state.jobs.contains_key(#[trigger] keys[i])
    &&& forall|i: int, j: int|
        0 <= i < j < keys.len() ==> #[trigger] keys[i] != #[trigger] keys[j]
}

proof fn lemma_one(state: StateView, key: Seq<char>, now: Reading)
    ensures
        ({
            let after = with_looked_at(state, key, now);
            let registration = state.jobs[key];
            &&& has_come(registration, now) ==> after.jobs == state.jobs.insert(
                key,
                RegistrationView {
                    timing: next_timing(
                        registration.job.definition.schedule,
                        registration.timing,
                        now,
                    ).0,
                    ..registration
                },
            )
            &&& !has_come(registration, now) ==> after == state
            &&& after.missed == counted_up(
                state.missed,
                if came_too_late(state, key, now) {
                    1
                } else {
                    0
                },
            )
            &&& after == (StateView {
                jobs: after.jobs,
                scopes: after.scopes,
                missed: after.missed,
                ..state
            })
            &&& due_of(state, key, now) == if came_in_time(state, key, now) {
                seq![due_entry(state, key)]
            } else {
                Seq::<DueView>::empty()
            }
        }),
{
}

proof fn lemma_looked(state: StateView, keys: Seq<Seq<char>>, n: nat, now: Reading)
    requires
        lists_jobs(state, keys),
        n <= keys.len(),
    ensures
        ({
            let (after, dues) = looked_at(state, keys, n, now);
            &&& after.jobs.dom() == state.jobs.dom()
            &&& forall|i: int|
                0 <= i < n ==> after.jobs[#[trigger] keys[i]] == if has_come(
                    state.jobs[keys[i]],
                    now,
                ) {
                    RegistrationView {
                        timing: next_timing(
                            state.jobs[keys[i]].job.definition.schedule,
                            state.jobs[keys[i]].timing,
                            now,
                        ).0,
                        ..state.jobs[keys[i]]
                    }
                } else {
                    state.jobs[keys[i]]
                }
            &&& forall|i: int|
                n <= i < keys.len() ==> after.jobs[#[trigger] keys[i]] == state.jobs[keys[i]]
            &&& after == (StateView {
                jobs: after.jobs,
                scopes: after.scopes,
                missed: after.missed,
                ..state
            })
            &&& after.missed == counted_up(
                state.missed,
                keys.take(n as int).filter(|key: Seq<char>| came_too_late(state, key, now)).len(),
            )
            &&& dues == keys.take(n as int).filter(
                |key: Seq<char>| came_in_time(state, key, now),
            ).map_values(|key: Seq<char>| due_entry(state, key))
        }),
    decreases n,
{
    reveal(Seq::filter);
    let in_time = |key: Seq<char>| came_in_time(state, key, now);
    let late = |key: Seq<char>| came_too_late(state, key, now);
    let entry = |key: Seq<char>| due_entry(state, key);
    if n == 0 {
        assert(keys.take(0).filter(in_time).map_values(entry) =~= Seq::<DueView>::empty());
    } else {
        let m = (n - 1) as nat;
        lemma_looked(state, keys, m, now);
        let (before, dues) = looked_at(state, keys, m, now);
        let key = keys[n - 1];
        assert(before.jobs[key] == state.jobs[key]);
        assert(before.jobs.dom().contains(key));
        lemma_one(before, key, now);
        assert(keys.take(n as int).drop_last() =~= keys.take(m as int));
        assert(keys.take(n as int).last() == key);
        assert(came_in_time(before, key, now) == came_in_time(state, key, now));
        assert(came_too_late(before, key, now) == came_too_late(state, key, now));
        assert(due_entry(before, key) == due_entry(state, key));
        let (after, more) = looked_at(state, keys, n, now);
        assert(after.jobs.dom() =~= state.jobs.dom());
        assert(more =~= keys.take(n as int).filter(in_time).map_values(entry));
    }
}

/// What a tick finds due: in the order of the keys, exactly the jobs whose time has come and not
/// too long ago, each under its own trigger and for the instant that it waited for. Every job
/// whose time has come moves on, and only those; a trigger that comes too late is counted as
/// missed, once; and whatever else the service holds stays, but for the errors of scopes and the
/// idle maintenance.
pub proof fn survey_finds_what_has_come(state: State, now: Reading, key: Seq<char>)
    requires
        state.wf(),
        now.usable(),
    ensures
        ({
            let (after, dues) = surveyed(state@, now);
            let keys = state.jobs.keys();
            &&& dues == keys.filter(
                |key: Seq<char>| came_in_time(state@, key, now),
            ).map_values(|key: Seq<char>| due_entry(state@, key))
            &&& after.missed == counted_up(
                state@.missed,
                keys.filter(|key: Seq<char>| came_too_late(state@, key, now)).len(),
            )
            &&& after.jobs.dom() == state@.jobs.dom()
            &&& state@.jobs.contains_key(key) ==> after.jobs[key].job == state@.jobs[key].job
                && after.jobs[key].generation == state@.jobs[key].generation
            &&& state@.jobs.contains_key(key) && !has_come(state@.jobs[key], now)
                ==> after.jobs[key] == state@.jobs[key]
            &&& state@.jobs.contains_key(key) && has_come(state@.jobs[key], now) && can_be_read(
                state@.jobs[key].job.definition.schedule,
            ) ==> continues(
                state@.jobs[key].job.definition.schedule,
                state@.jobs[key].timing,
                after.jobs[key].timing,
                now,
            )
            &&& after.active == state@.active
            &&& after.faults == state@.faults
            &&& after.dropped == state@.dropped
            &&& after.generation == state@.generation
            &&& after.shutting_down == state@.shutting_down
            &&& after.limits == state@.limits
        }),
{
    let keys = state.jobs.keys();
    state.jobs.lemma_keys();
    let begun = with_maintenance(state@, now);
    assert(begun.jobs == state@.jobs);
    lemma_listed(state);
    lemma_looked(begun, keys, keys.len(), now);
    assert(keys.take(keys.len() as int) =~= keys);
    let in_time = |key: Seq<char>| came_in_time(state@, key, now);
    let begun_in_time = |key: Seq<char>| came_in_time(begun, key, now);
    let late = |key: Seq<char>| came_too_late(state@, key, now);
    let begun_late = |key: Seq<char>| came_too_late(begun, key, now);
    assert(in_time =~= begun_in_time);
    assert(late =~= begun_late);
    let entry = |key: Seq<char>| due_entry(state@, key);
    let begun_entry = |key: Seq<char>| due_entry(begun, key);
    assert(entry =~= begun_entry);
    if state@.jobs.contains_key(key) {
        state.jobs.lemma_key(key);
        let i = state.jobs.position(key);
        assert(keys[i] == key);
        let registration = state@.jobs[key];
        assert(crate::state::registered_as(registration, key));
        if has_come(registration, now) && can_be_read(registration.job.definition.schedule) {
            crate::laws::timing::due_job_continues(
                registration.job.definition.schedule,
                registration.timing,
                now,
            );
        }
    }
}

proof fn lemma_listed(state: State)
    requires
        state.wf(),
    ensures
        lists_jobs(state@, state.jobs.keys()),
        state.jobs.keys() == in_order::<String>(state@.jobs.dom()),
{
    state.jobs.lemma_keys();
    let keys = state.jobs.keys();
    assert forall|i: int, j: int| 0 <= i < j < keys.len() implies #[trigger] keys[i]
        != #[trigger] keys[j] by {
        state.jobs.lemma_entry(i);
        state.jobs.lemma_entry(j);
    }
}

/// A tick starts idle maintenance exactly if none is under way and a minute has passed since it
/// was last due; the next is due a minute from now. A service that shuts down starts none.
pub proof fn maintenance_starts_every_minute<F: Fn(&Job, &str) -> Decoding>(
    decode: F,
    state: State,
    now: Reading,
    after: StateView,
    done: Ticked,
    wait: Span,
)
    requires
        state.wf(),
        now.usable(),
        handled(decode, state@, Msg::Tick, now, after, Answer::Ticked(done, wait)),
    ensures
        done.maintain <==> !state@.shutting_down && !state@.maintaining && now.mono.nanos
            >= state@.maintenance_due.nanos,
        after.maintaining == (state@.maintaining || done.maintain),
        done.maintain ==> after.maintenance_due.nanos == now.mono.nanos + 60_000_000_000,
        !done.maintain ==> after.maintenance_due == state@.maintenance_due,
{
    if !state@.shutting_down {
        let (seen, dues) = surveyed(state@, now);
        lemma_maintained(state, now);
        let launches = launch_views(done.launches@);
        let (ids, said) = choose|ids: Seq<u128>, said: Seq<DecodingView>| #[trigger]
            all_fired(decode, seen, dues, now.wall, ids, said, after, launches);
        lemma_submitted_rest(seen, dues, dues.len(), now.wall, ids, said);
    }
}

proof fn lemma_maintained(state: State, now: Reading)
    requires
        state.wf(),
    ensures
        surveyed(state@, now).0.maintaining == with_maintenance(state@, now).maintaining,
        surveyed(state@, now).0.maintenance_due == with_maintenance(state@, now).maintenance_due,
{
    let begun = with_maintenance(state@, now);
    lemma_listed(state);
    lemma_looked(begun, state.jobs.keys(), state.jobs.keys().len(), now);
}

/// What submitting a due job under a free identifier leads to: it starts a run unless the service
/// shuts down, a fault is open, no permit is free, or its default input is too long or refused.
/// The run has the job's default input, its own trigger and the instant it waited for, and records
/// a collision exactly if a run of the job is active. A trigger that starts nothing is counted as
/// dropped, and changes nothing else.
pub proof fn due_job_is_started_or_counted(
    state: StateView,
    due: DueView,
    now: Timestamp,
    id: u128,
    said: DecodingView,
)
    requires
        state.jobs.contains_key(due.key),
    ensures
        ({
            let (after, launch) = fired(state, due, now, id, said);
            let job = state.jobs[due.key].job;
            &&& launch is Some <==> {
                &&& !state.active.contains_key(id)
                &&& !state.shutting_down
                &&& state.faults == Set::<u128>::empty()
                &&& state.active.dom().len() < state.limits.concurrency
                &&& encode_utf8(job.input).len() <= state.limits.input_bytes
                &&& said is Accepted
            }
            &&& launch is None ==> after.dropped == counted_up(state.dropped, 1) && after == (
            StateView { dropped: after.dropped, ..state })
            &&& launch matches Some(run) ==> {
                &&& run.job == job
                &&& run.input == job.input
                &&& run.skip == has_run_of(state, due.key)
                &&& run.record == (RunRecordView {
                    id,
                    job: due.key,
                    definition_version: job.definition.version,
                    trigger: due.trigger,
                    scheduled_at: due.scheduled,
                    admitted_at: now,
                    admission_sequence: 0,
                    finished_at: None,
                    state: RunStateView::Admitted,
                    last_log_sequence: 0,
                    dropped_log_count: 0,
                })
                &&& after.active == state.active.insert(id, after.active[id])
                &&& after.active[id].record == run.record
                &&& after.active[id].skip == run.skip
                &&& after.active[id].admitting
                &&& after == (StateView { active: after.active, ..state })
            }
        }),
{
    assert(has_run_of(state, due.key) == state.occupied(due.key)) by {
        if has_run_of(state, due.key) {
            let other = choose|other: u128| #[trigger]
                state.active.contains_key(other) && state.active[other].record.job == due.key;
            assert(state.occupied(due.key));
        }
        if state.occupied(due.key) {
            let other = choose|other: u128| #[trigger]
                state.active.contains_key(other) && state.active[other].record.job == due.key;
            assert(has_run_of(state, due.key));
        }
    }
}

proof fn lemma_submitted_rest(
    state: StateView,
    dues: Seq<DueView>,
    n: nat,
    now: Timestamp,
    ids: Seq<u128>,
    said: Seq<DecodingView>,
)
    ensures
        ({
            let (after, launches) = submitted(state, dues, n, now, ids, said);
            &&& launches.len() <= n
            &&& after.dropped == counted_up(state.dropped, (n - launches.len()) as nat)
            &&& after == (StateView { active: after.active, dropped: after.dropped, ..state })
        }),
    decreases n,
{
    if n > 0 {
        lemma_submitted_rest(state, dues, (n - 1) as nat, now, ids, said);
    }
}

/// Whether a run is the one that a due job starts.
pub open spec fn starts(
    launch: LaunchView,
    due: DueView,
    jobs: Map<Seq<char>, RegistrationView>,
    now: Timestamp,
) -> bool {
    &&& launch.record.job == due.key
    &&& launch.record.trigger == due.trigger
    &&& launch.record.scheduled_at == due.scheduled
    &&& launch.record.admitted_at == now
    &&& launch.record.state is Admitted
    &&& launch.job == jobs[due.key].job
    &&& launch.input == jobs[due.key].job.input
}

/// Whether runs are those of some of the due jobs, in order, as picked.
pub open spec fn picks(
    picked: Seq<int>,
    launches: Seq<LaunchView>,
    dues: Seq<DueView>,
    jobs: Map<Seq<char>, RegistrationView>,
    now: Timestamp,
) -> bool {
    &&& picked.len() == launches.len()
    &&& forall|k: int|
        0 <= k < picked.len() ==> 0 <= #[trigger] picked[k] < dues.len() && starts(
            launches[k],
            dues[picked[k]],
            jobs,
            now,
        )
    &&& forall|k: int, l: int| 0 <= k < l < picked.len() ==> picked[k] < picked[l]
}

proof fn lemma_picked(
    state: StateView,
    dues: Seq<DueView>,
    n: nat,
    now: Timestamp,
    ids: Seq<u128>,
    said: Seq<DecodingView>,
) -> (picked: Seq<int>)
    requires
        n <= dues.len(),
    ensures
        picks(
            picked,
            submitted(state, dues, n, now, ids, said).1,
            dues.take(n as int),
            state.jobs,
            now,
        ),
    decreases n,
{
    if n == 0 {
        Seq::empty()
    } else {
        let m = (n - 1) as nat;
        let before = lemma_picked(state, dues, m, now, ids, said);
        lemma_submitted_rest(state, dues, m, now, ids, said);
        let (held, launched) = submitted(state, dues, m, now, ids, said);
        let (after, launches) = submitted(state, dues, n, now, ids, said);
        assert forall|k: int| 0 <= k < before.len() implies dues.take(
            n as int,
        )[#[trigger] before[k]] == dues.take(m as int)[before[k]] by {}
        match fired(held, dues[m as int], now, ids[m as int], said[m as int]).1 {
            Some(launch) => {
                let picked = before.push(m as int);
                assert(launches == launched.push(launch));
                assert forall|k: int| 0 <= k < picked.len() implies 0 <= #[trigger] picked[k]
                    < dues.take(n as int).len() && starts(
                    launches[k],
                    dues.take(n as int)[picked[k]],
                    state.jobs,
                    now,
                ) by {
                    if k < m && k < before.len() {
                        assert(picked[k] == before[k]);
                        assert(launches[k] == launched[k]);
                    } else {
                        assert(launches[k] == launch || k < before.len());
                    }
                    if k < before.len() {
                        assert(picked[k] == before[k]);
                        assert(launches[k] == launched[k]);
                    }
                }
                picked
            },
            None => before,
        }
    }
}

/// A tick starts runs for jobs whose time has come in time, in the order of their keys and at most
/// one for each: with the job's default input, its own trigger, the instant it waited for, and
/// now as the time of admission. Every such job that gets no run is counted as dropped, and every
/// job whose time came too long ago as missed.
pub proof fn tick_starts_what_has_come<F: Fn(&Job, &str) -> Decoding>(
    decode: F,
    state: State,
    now: Reading,
    after: StateView,
    done: Ticked,
    wait: Span,
)
    requires
        state.wf(),
        now.usable(),
        !state@.shutting_down,
        handled(decode, state@, Msg::Tick, now, after, Answer::Ticked(done, wait)),
    ensures
        ({
            let dues = state.jobs.keys().filter(
                |key: Seq<char>| came_in_time(state@, key, now),
            ).map_values(|key: Seq<char>| due_entry(state@, key));
            let late = state.jobs.keys().filter(
                |key: Seq<char>| came_too_late(state@, key, now),
            );
            let launches = launch_views(done.launches@);
            &&& exists|picked: Seq<int>| #[trigger]
                picks(picked, launches, dues, state@.jobs, now.wall)
            &&& after.dropped == counted_up(state@.dropped, (dues.len() - launches.len()) as nat)
            &&& launches.len() <= dues.len()
            &&& after.missed == counted_up(state@.missed, late.len())
            &&& after.generation == state@.generation
            &&& after.faults == state@.faults
            &&& after.limits == state@.limits
            &&& !after.shutting_down
        }),
{
    let (seen, dues) = surveyed(state@, now);
    survey_finds_what_has_come(state, now, Seq::empty());
    let launches = launch_views(done.launches@);
    let (ids, said) = choose|ids: Seq<u128>, said: Seq<DecodingView>| #[trigger]
        all_fired(decode, seen, dues, now.wall, ids, said, after, launches);
    lemma_submitted_rest(seen, dues, dues.len(), now.wall, ids, said);
    let picked = lemma_picked(seen, dues, dues.len(), now.wall, ids, said);
    assert(dues.take(dues.len() as int) =~= dues);
    assert(picks(picked, launches, dues, state@.jobs, now.wall)) by {
        assert forall|k: int| 0 <= k < picked.len() implies 0 <= #[trigger] picked[k] < dues.len()
            && starts(launches[k], dues[picked[k]], state@.jobs, now.wall) by {
            let due = dues[picked[k]];
            let in_time = |key: Seq<char>| came_in_time(state@, key, now);
            let keys = state.jobs.keys().filter(in_time);
            assert(due.key == keys[picked[k]]);
            lemma_filter_keys(state.jobs.keys(), in_time, picked[k]);
            lemma_listed(state);
            survey_finds_what_has_come(state, now, due.key);
        }
    }
}

/// Due jobs are submitted one after the other, in order, each to the state that the ones before it
/// left; what each starts is listed behind what they started.
pub proof fn due_jobs_follow_each_other(
    state: StateView,
    dues: Seq<DueView>,
    n: nat,
    now: Timestamp,
    ids: Seq<u128>,
    said: Seq<DecodingView>,
)
    ensures
        submitted(state, dues, 0, now, ids, said) == (state, Seq::<LaunchView>::empty()),
        ({
            let before = submitted(state, dues, n, now, ids, said);
            let after = submitted(state, dues, n + 1, now, ids, said);
            let one = fired(
                before.0,
                dues[n as int],
                now,
                ids[n as int],
                said[n as int],
            );
            &&& after.0 == one.0
            &&& one.1 is None ==> after.1 == before.1
            &&& one.1 matches Some(launch) ==> after.1 == before.1.push(launch)
        }),
{
}

/// Whether nothing stands in the way of starting due jobs under given identifiers: they are all of
/// different registered jobs, within the limit on inputs and accepted by their decoders, under
/// different free identifiers, a permit is free for each, and the service neither shuts down nor
/// has an open fault.
pub open spec fn clear_way(
    state: StateView,
    dues: Seq<DueView>,
    ids: Seq<u128>,
    said: Seq<DecodingView>,
) -> bool {
    &&& ids.len() == dues.len()
    &&& said.len() == dues.len()
    &&& !state.shutting_down
    &&& state.faults == Set::<u128>::empty()
    &&& state.active.dom().finite()
    &&& state.active.dom().len() + dues.len() <= state.limits.concurrency
    &&& forall|i: int|
        0 <= i < dues.len() ==> state.jobs.contains_key((#[trigger] dues[i]).key) && encode_utf8(
            state.jobs[dues[i].key].job.input,
        ).len() <= state.limits.input_bytes
    &&& forall|i: int, j: int|
        0 <= i < j < dues.len() ==> (#[trigger] dues[i]).key != (#[trigger] dues[j]).key
    &&& forall|i: int| 0 <= i < said.len() ==> #[trigger] said[i] is Accepted
    &&& forall|i: int| 0 <= i < ids.len() ==> !state.active.contains_key(#[trigger] ids[i])
    &&& forall|i: int, j: int| 0 <= i < j < ids.len() ==> #[trigger] ids[i] != #[trigger] ids[j]
}

/// Where nothing stands in the way, every due job starts a run, in order and under its identifier,
/// and none is counted as dropped. A run records a collision exactly if a run of its job was active
/// before the tick.
pub proof fn due_jobs_start_if_they_can(
    state: StateView,
    dues: Seq<DueView>,
    n: nat,
    now: Timestamp,
    ids: Seq<u128>,
    said: Seq<DecodingView>,
)
    requires
        clear_way(state, dues, ids, said),
        n <= dues.len(),
    ensures
        ({
            let (after, launches) = submitted(state, dues, n, now, ids, said);
            &&& launches.len() == n
            &&& after.dropped == state.dropped
            &&& after.active.dom().finite()
            &&& after.active.dom().len() == state.active.dom().len() + n
            &&& forall|k: int|
                0 <= k < n ==> starts(#[trigger] launches[k], dues[k], state.jobs, now)
                    && launches[k].record.id == ids[k] && launches[k].skip == has_run_of(
                    state,
                    dues[k].key,
                )
            &&& forall|id: u128| #[trigger]
                after.active.contains_key(id) <==> state.active.contains_key(id) || exists|k: int|
                    0 <= k < n && #[trigger] ids[k] == id
            &&& forall|id: u128| #[trigger]
                state.active.contains_key(id) ==> after.active[id] == state.active[id]
            &&& forall|k: int|
                0 <= k < n ==> after.active[#[trigger] ids[k]].record.job == dues[k].key
        }),
    decreases n,
{
    if n > 0 {
        let m = (n - 1) as nat;
        due_jobs_start_if_they_can(state, dues, m, now, ids, said);
        lemma_submitted_rest(state, dues, m, now, ids, said);
        let (held, launched) = submitted(state, dues, m, now, ids, said);
        let (after, launches) = submitted(state, dues, n, now, ids, said);
        let due = dues[m as int];
        let id = ids[m as int];
        assert(said[m as int] is Accepted);
        assert(state.jobs.contains_key(due.key));
        if held.active.contains_key(id) {
            let k = choose|k: int| 0 <= k < m && #[trigger] ids[k] == id;
            assert(ids[k] != ids[m as int]);
        }
        due_job_is_started_or_counted(held, due, now, id, said[m as int]);
        assert(has_run_of(held, due.key) == has_run_of(state, due.key)) by {
            if has_run_of(state, due.key) {
                let other = choose|other: u128| #[trigger]
                    state.active.contains_key(other) && state.active[other].record.job == due.key;
                assert(held.active.contains_key(other));
                assert(held.active[other].record.job == due.key);
            }
            if has_run_of(held, due.key) {
                let other = choose|other: u128| #[trigger]
                    held.active.contains_key(other) && held.active[other].record.job == due.key;
                if !state.active.contains_key(other) {
                    let k = choose|k: int| 0 <= k < m && #[trigger] ids[k] == other;
                    assert(held.active[ids[k]].record.job == dues[k].key);
                    assert(dues[k].key != dues[m as int].key);
                }
                assert(state.active.contains_key(other));
            }
        }
        let launch = fired(held, due, now, id, said[m as int]).1->0;
        assert(launches == launched.push(launch));
        assert forall|k: int| 0 <= k < n implies starts(
            #[trigger] launches[k],
            dues[k],
            state.jobs,
            now,
        ) && launches[k].record.id == ids[k] && launches[k].skip == has_run_of(
            state,
            dues[k].key,
        ) by {
            if k < m {
                assert(launches[k] == launched[k]);
            }
        }
        assert forall|other: u128| #[trigger]
            after.active.contains_key(other) <==> state.active.contains_key(other) || exists|k: int|
                0 <= k < n && #[trigger] ids[k] == other by {
            if other == id {
                assert(ids[m as int] == other);
            } else {
                assert(after.active.contains_key(other) == held.active.contains_key(other));
                if held.active.contains_key(other) && !state.active.contains_key(other) {
                    let k = choose|k: int| 0 <= k < m && #[trigger] ids[k] == other;
                    assert(0 <= k < n && ids[k] == other);
                }
                if exists|k: int| 0 <= k < n && #[trigger] ids[k] == other {
                    let k = choose|k: int| 0 <= k < n && #[trigger] ids[k] == other;
                    assert(k < m);
                    assert(held.active.contains_key(other));
                }
            }
        }
        assert forall|other: u128| #[trigger] state.active.contains_key(other) implies
            after.active[other] == state.active[other] by {
            assert(other != id);
            assert(held.active.contains_key(other));
        }
        assert forall|k: int| 0 <= k < n implies after.active[#[trigger] ids[k]].record.job
            == dues[k].key by {
            if k < m {
                assert(ids[k] != ids[m as int]);
            }
        }
        assert(after.active.dom() =~= held.active.dom().insert(id));
    }
}

/// Every run that a tick starts has a fresh random identifier.
pub proof fn tick_draws_random_identifiers<F: Fn(&Job, &str) -> Decoding>(
    decode: F,
    before: StateView,
    now: Reading,
    after: StateView,
    done: Ticked,
    wait: Span,
    k: int,
)
    requires
        handled(decode, before, Msg::Tick, now, after, Answer::Ticked(done, wait)),
        0 <= k < done.launches@.len(),
    ensures
        is_random_uuid(done.launches@[k].record.id@),
{
    let (seen, dues) = surveyed(before, now);
    let launches = launch_views(done.launches@);
    let (ids, said) = choose|ids: Seq<u128>, said: Seq<DecodingView>| #[trigger]
        all_fired(decode, seen, dues, now.wall, ids, said, after, launches);
    lemma_random(seen, dues, dues.len(), now.wall, ids, said, k);
    assert(launches[k] == done.launches@[k]@);
}

proof fn lemma_random(
    state: StateView,
    dues: Seq<DueView>,
    n: nat,
    now: Timestamp,
    ids: Seq<u128>,
    said: Seq<DecodingView>,
    k: int,
)
    requires
        n <= ids.len(),
        forall|i: int| 0 <= i < ids.len() ==> #[trigger] is_random_uuid(ids[i]),
        0 <= k < submitted(state, dues, n, now, ids, said).1.len(),
    ensures
        is_random_uuid(submitted(state, dues, n, now, ids, said).1[k].record.id),
    decreases n,
{
    if n > 0 {
        let m = (n - 1) as nat;
        let launched = submitted(state, dues, m, now, ids, said).1;
        assert(is_random_uuid(ids[m as int]));
        if k < launched.len() {
            lemma_random(state, dues, m, now, ids, said, k);
        }
    }
}

/// The default input of every run that a tick starts was accepted by its job's decoder.
pub proof fn started_input_was_decoded<F: Fn(&Job, &str) -> Decoding>(
    decode: F,
    before: StateView,
    now: Reading,
    after: StateView,
    done: Ticked,
    wait: Span,
    k: int,
)
    requires
        handled(decode, before, Msg::Tick, now, after, Answer::Ticked(done, wait)),
        0 <= k < done.launches@.len(),
    ensures
        exists|job: &Job, text: &str, said: Decoding|
            job@ == done.launches@[k].job@ && text@ == done.launches@[k].input@ && said is Accepted
                && #[trigger] call_ensures(decode, (job, text), said),
{
    let (seen, dues) = surveyed(before, now);
    let launches = launch_views(done.launches@);
    let (ids, said) = choose|ids: Seq<u128>, said: Seq<DecodingView>| #[trigger]
        all_fired(decode, seen, dues, now.wall, ids, said, after, launches);
    lemma_decoded(decode, seen, dues, dues.len(), now.wall, ids, said, k);
    assert(launches[k] == done.launches@[k]@);
    assert(heard(decode, launches[k].job, launches[k].input, DecodingView::Accepted));
}

proof fn lemma_decoded<F: Fn(&Job, &str) -> Decoding>(
    decode: F,
    state: StateView,
    dues: Seq<DueView>,
    n: nat,
    now: Timestamp,
    ids: Seq<u128>,
    said: Seq<DecodingView>,
    k: int,
)
    requires
        said_by(decode, state, dues, n, now, ids, said),
        n <= said.len(),
        0 <= k < submitted(state, dues, n, now, ids, said).1.len(),
    ensures
        ({
            let launch = submitted(state, dues, n, now, ids, said).1[k];
            heard(decode, launch.job, launch.input, DecodingView::Accepted)
        }),
    decreases n,
{
    if n > 0 {
        let m = (n - 1) as nat;
        let (held, launched) = submitted(state, dues, m, now, ids, said);
        if k < launched.len() {
            lemma_decoded(decode, state, dues, m, now, ids, said, k);
        } else {
            assert(said_of(decode, held, dues[m as int], ids[m as int], said[m as int]));
        }
    }
}

/// A tick moves exactly the jobs on whose time has come, each as its schedule says, and leaves
/// every job, its generation and every other timing as they were.
pub proof fn tick_moves_jobs_on<F: Fn(&Job, &str) -> Decoding>(
    decode: F,
    state: State,
    now: Reading,
    after: StateView,
    done: Ticked,
    wait: Span,
    key: Seq<char>,
)
    requires
        state.wf(),
        now.usable(),
        !state@.shutting_down,
        handled(decode, state@, Msg::Tick, now, after, Answer::Ticked(done, wait)),
        state@.jobs.contains_key(key),
    ensures
        after.jobs.dom() == state@.jobs.dom(),
        after.jobs[key].job == state@.jobs[key].job,
        after.jobs[key].generation == state@.jobs[key].generation,
        !has_come(state@.jobs[key], now) ==> after.jobs[key].timing == state@.jobs[key].timing,
        has_come(state@.jobs[key], now) && can_be_read(state@.jobs[key].job.definition.schedule)
            ==> continues(
            state@.jobs[key].job.definition.schedule,
            state@.jobs[key].timing,
            after.jobs[key].timing,
            now,
        ),
        after.scopes == surveyed(state@, now).0.scopes,
{
    survey_finds_what_has_come(state, now, key);
    let (seen, dues) = surveyed(state@, now);
    let launches = launch_views(done.launches@);
    let (ids, said) = choose|ids: Seq<u128>, said: Seq<DecodingView>| #[trigger]
        all_fired(decode, seen, dues, now.wall, ids, said, after, launches);
    lemma_submitted_rest(seen, dues, dues.len(), now.wall, ids, said);
}

/// What is filtered out of a list was in it and satisfies the condition.
proof fn lemma_filter_keys(
    list: Seq<Seq<char>>,
    chosen: spec_fn(Seq<char>) -> bool,
    k: int,
)
    requires
        0 <= k < list.filter(chosen).len(),
    ensures
        list.contains(list.filter(chosen)[k]),
        chosen(list.filter(chosen)[k]),
    decreases list.len(),
{
    reveal(Seq::filter);
    if list.len() > 0 {
        let head = list.drop_last();
        if k < head.filter(chosen).len() {
            lemma_filter_keys(head, chosen, k);
            let q = choose|q: int| 0 <= q < head.len() && head[q] == head.filter(chosen)[k];
            assert(list[q] == list.filter(chosen)[k]);
        } else {
            assert(list[list.len() - 1] == list.filter(chosen)[k]);
        }
    }
}

/// After a tick, a job that waits for a deadline, or for an instant where it has none, is looked
/// at again no later than that and no later than in five seconds, and no earlier than needed.
pub proof fn next_tick_is_the_nearest<F: Fn(&Job, &str) -> Decoding>(
    decode: F,
    before: StateView,
    now: Reading,
    after: StateView,
    done: Ticked,
    wait: Span,
    key: Seq<char>,
)
    requires
        handled(decode, before, Msg::Tick, now, after, Answer::Ticked(done, wait)),
    ensures
        wait.nanos <= 5_000_000_000,
        after.jobs.contains_key(key) ==> match after.jobs[key].timing.deadline {
            Some(deadline) => wait.nanos == 0 || now.mono.nanos + wait.nanos <= deadline.nanos,
            None => after.jobs[key].timing.next matches Some(at) ==> wait.nanos == 0
                || now.wall.nanos + wait.nanos <= at.nanos,
        },
        wait.nanos < 5_000_000_000 ==> exists|nearest: Seq<char>| #[trigger]
            after.jobs.contains_key(nearest) && match after.jobs[nearest].timing.deadline {
                Some(deadline) => if wait.nanos == 0 {
                    deadline.nanos <= now.mono.nanos
                } else {
                    now.mono.nanos + wait.nanos == deadline.nanos
                },
                None => after.jobs[nearest].timing.next is Some && if wait.nanos == 0 {
                    after.jobs[nearest].timing.next->0.nanos <= now.wall.nanos
                } else {
                    now.wall.nanos + wait.nanos == after.jobs[nearest].timing.next->0.nanos
                },
            },
{
    if wait.nanos < 5_000_000_000 {
        let nearest = choose|nearest: Seq<char>| #[trigger]
            after.jobs.contains_key(nearest) && crate::tick::time_left(
                after.jobs[nearest].timing,
                now,
            ) == Some(wait.nanos as nat);
        assert(after.jobs.contains_key(nearest));
    }
}

/// Whether some of the first `n` jobs belongs to a scope, came, and does not occur again.
pub open spec fn ran_out(
    state: StateView,
    keys: Seq<Seq<char>>,
    n: int,
    scope: Seq<char>,
    now: Reading,
) -> bool {
    exists|i: int|
        0 <= i < n && state.jobs[#[trigger] keys[i]].job.definition.scope == scope && runs_out(
            state.jobs[keys[i]],
            now,
        ) is Some
}

/// Whether a text is the complaint about one of the first `n` jobs, of a scope, that came and does
/// not occur again.
pub open spec fn complains(
    state: StateView,
    keys: Seq<Seq<char>>,
    n: int,
    scope: Seq<char>,
    now: Reading,
    text: Seq<char>,
) -> bool {
    exists|i: int|
        0 <= i < n && state.jobs[#[trigger] keys[i]].job.definition.scope == scope && (runs_out(
            state.jobs[keys[i]],
            now,
        ) matches Some(e) && text == error_text(e))
}

proof fn lemma_scopes(
    state: StateView,
    keys: Seq<Seq<char>>,
    n: nat,
    now: Reading,
    scope: Seq<char>,
)
    requires
        lists_jobs(state, keys),
        n <= keys.len(),
    ensures
        ({
            let after = looked_at(state, keys, n, now).0;
            &&& after.scopes.dom() == state.scopes.dom()
            &&& state.scopes.contains_key(scope) ==> after.scopes[scope] == (ScopeView {
                last_error: after.scopes[scope].last_error,
                ..state.scopes[scope]
            })
            &&& state.scopes.contains_key(scope) && !ran_out(state, keys, n as int, scope, now)
                ==> after.scopes[scope] == state.scopes[scope]
            &&& state.scopes.contains_key(scope) && ran_out(state, keys, n as int, scope, now)
                ==> after.scopes[scope].last_error is Some && complains(
                state,
                keys,
                n as int,
                scope,
                now,
                after.scopes[scope].last_error->0,
            )
        }),
    decreases n,
{
    if n > 0 {
        let m = (n - 1) as nat;
        lemma_scopes(state, keys, m, now, scope);
        lemma_looked(state, keys, m, now);
        let before = looked_at(state, keys, m, now).0;
        let after = looked_at(state, keys, n, now).0;
        let key = keys[n - 1];
        assert(before.jobs[key] == state.jobs[key]);
        lemma_one(before, key, now);
        assert(after.scopes.dom() =~= state.scopes.dom());
        if state.scopes.contains_key(scope) {
            let own = state.jobs[key].job.definition.scope == scope && runs_out(
                state.jobs[key],
                now,
            ) is Some;
            if ran_out(state, keys, m as int, scope, now) {
                let i = choose|i: int|
                    0 <= i < m && state.jobs[#[trigger] keys[i]].job.definition.scope == scope
                        && runs_out(state.jobs[keys[i]], now) is Some;
                assert(0 <= i < n);
                assert(ran_out(state, keys, n as int, scope, now));
                let text = before.scopes[scope].last_error->0;
                let j = choose|j: int|
                    0 <= j < m && state.jobs[#[trigger] keys[j]].job.definition.scope == scope && (
                    runs_out(state.jobs[keys[j]], now) matches Some(e) && text == error_text(e));
                assert(complains(state, keys, n as int, scope, now, text));
            }
            if own {
                assert(state.jobs[keys[n - 1]].job.definition.scope == scope);
                assert(ran_out(state, keys, n as int, scope, now));
                assert(complains(
                    state,
                    keys,
                    n as int,
                    scope,
                    now,
                    after.scopes[scope].last_error->0,
                ));
            } else {
                assert(after.scopes[scope] == before.scopes[scope]);
                if ran_out(state, keys, n as int, scope, now) {
                    let i = choose|i: int|
                        0 <= i < n && state.jobs[#[trigger] keys[i]].job.definition.scope == scope
                            && runs_out(state.jobs[keys[i]], now) is Some;
                    assert(i < m);
                    assert(ran_out(state, keys, m as int, scope, now));
                }
            }
        }
    }
}

/// A tick changes nothing of a scope but its error, and that only where the pattern of one of its
/// jobs came and does not occur again: then it is the complaint about such a job.
pub proof fn tick_leaves_complaints_with_scopes(state: State, now: Reading, scope: Seq<char>)
    requires
        state.wf(),
        state@.scopes.contains_key(scope),
    ensures
        ({
            let after = surveyed(state@, now).0;
            let keys = state.jobs.keys();
            &&& after.scopes.dom() == state@.scopes.dom()
            &&& after.scopes[scope].source_revision == state@.scopes[scope].source_revision
            &&& after.scopes[scope].applied_revision == state@.scopes[scope].applied_revision
            &&& if ran_out(state@, keys, keys.len() as int, scope, now) {
                after.scopes[scope].last_error matches Some(text) && complains(
                    state@,
                    keys,
                    keys.len() as int,
                    scope,
                    now,
                    text,
                )
            } else {
                after.scopes[scope] == state@.scopes[scope]
            }
        }),
{
    let begun = with_maintenance(state@, now);
    let keys = state.jobs.keys();
    let n = keys.len() as int;
    lemma_listed(state);
    assert(begun.jobs == state@.jobs && begun.scopes == state@.scopes);
    lemma_scopes(begun, keys, keys.len(), now, scope);
    assert(ran_out(begun, keys, n, scope, now) == ran_out(state@, keys, n, scope, now));
    let after = surveyed(state@, now).0;
    if ran_out(begun, keys, n, scope, now) {
        let text = after.scopes[scope].last_error->0;
        assert(complains(begun, keys, n, scope, now, text));
        let i = choose|i: int|
            0 <= i < n && begun.jobs[#[trigger] keys[i]].job.definition.scope == scope && (
            runs_out(begun.jobs[keys[i]], now) matches Some(e) && text == error_text(e));
        assert(state@.jobs[keys[i]].job.definition.scope == scope);
        assert(complains(state@, keys, n, scope, now, text));
    }
}

/// No message lowers the revision that a scope noted, or makes a service forget a scope.
pub proof fn no_message_lowers_a_revision<F: Fn(&Job, &str) -> Decoding>(
    decode: F,
    state: State,
    msg: Msg,
    now: Reading,
    after: StateView,
    answer: Answer,
    scope: Seq<char>,
)
    requires
        state.wf(),
        now.usable(),
        handled(decode, state@, msg, now, after, answer),
        state@.scopes.contains_key(scope),
    ensures
        after.scopes.contains_key(scope),
        after.scopes[scope].source_revision >= state@.scopes[scope].source_revision,
        !(msg is Reconcile) ==> after.scopes[scope].source_revision
            == state@.scopes[scope].source_revision && after.scopes[scope].applied_revision
            == state@.scopes[scope].applied_revision,
{
    match msg {
        Msg::Tick => {
            if !state@.shutting_down {
                tick_leaves_complaints_with_scopes(state, now, scope);
                let (seen, dues) = surveyed(state@, now);
                let done = answer->Ticked_0;
                let launches = launch_views(done.launches@);
                let (ids, said) = choose|ids: Seq<u128>, said: Seq<DecodingView>| #[trigger]
                    all_fired(decode, seen, dues, now.wall, ids, said, after, launches);
                lemma_submitted_rest(seen, dues, dues.len(), now.wall, ids, said);
                assert(after.scopes.dom().contains(scope));
            }
        },
        Msg::Reconcile(own, revision, candidates) => {
            noted_revision_never_falls(
                state@,
                own@,
                revision,
                candidate_views(candidates@),
                now,
                scope,
            );
        },
        _ => {},
    }
}

/// Whether a service goes from state to state, message by message.
pub open spec fn goes_through<F: Fn(&Job, &str) -> Decoding>(
    decode: F,
    states: Seq<State>,
    msgs: Seq<Msg>,
    times: Seq<Reading>,
    answers: Seq<Answer>,
) -> bool {
    &&& states.len() == msgs.len() + 1
    &&& times.len() == msgs.len()
    &&& answers.len() == msgs.len()
    &&& forall|k: int| 0 <= k < states.len() ==> (#[trigger] states[k]).wf()
    &&& forall|k: int| 0 <= k < msgs.len() ==> (#[trigger] times[k]).usable()
    &&& forall|k: int|
        0 <= k < msgs.len() ==> handled(
            decode,
            states[k]@,
            #[trigger] msgs[k],
            times[k],
            states[k + 1]@,
            answers[k],
        )
}

proof fn lemma_revision_kept<F: Fn(&Job, &str) -> Decoding>(
    decode: F,
    states: Seq<State>,
    msgs: Seq<Msg>,
    times: Seq<Reading>,
    answers: Seq<Answer>,
    scope: Seq<char>,
    i: int,
    j: int,
)
    requires
        goes_through(decode, states, msgs, times, answers),
        0 <= i <= j <= msgs.len(),
        states[i]@.scopes.contains_key(scope),
    ensures
        states[j]@.scopes.contains_key(scope),
        states[j]@.scopes[scope].source_revision >= states[i]@.scopes[scope].source_revision,
    decreases j - i,
{
    if i < j {
        lemma_revision_kept(decode, states, msgs, times, answers, scope, i, j - 1);
        assert(states[j - 1].wf());
        assert(times[j - 1].usable());
        let msg = msgs[j - 1];
        no_message_lowers_a_revision(
            decode,
            states[j - 1],
            msg,
            times[j - 1],
            states[j]@,
            answers[j - 1],
            scope,
        );
    }
}

/// Once a snapshot of a scope was looked into, whether it was applied or not, every later one of
/// that scope with a lower revision is refused as stale and changes nothing, whatever messages
/// came between, as long as the service does not shut down.
pub proof fn older_snapshot_stays_refused<F: Fn(&Job, &str) -> Decoding>(
    decode: F,
    states: Seq<State>,
    msgs: Seq<Msg>,
    times: Seq<Reading>,
    answers: Seq<Answer>,
    i: int,
    j: int,
    scope: String,
    revision: u64,
    candidates: Vec<Candidate>,
    name: String,
    older: u64,
    others: Vec<Candidate>,
)
    requires
        goes_through(decode, states, msgs, times, answers),
        0 <= i < j < msgs.len(),
        msgs[i] == Msg::Reconcile(scope, revision, candidates),
        looked_into(states[i]@, scope@, revision),
        msgs[j] == Msg::Reconcile(name, older, others),
        name@ == scope@,
        older < revision,
        !states[j]@.shutting_down,
    ensures
        states[j + 1]@ == states[j]@,
        answers[j] matches Answer::Reconciled(Err(e)) && e@ == ErrorView::StaleRevision,
{
    let offered = candidate_views(candidates@);
    assert(handled(decode, states[i]@, msgs[i], times[i], states[i + 1]@, answers[i]));
    assert(handled(decode, states[j]@, msgs[j], times[j], states[j + 1]@, answers[j]));
    revision_is_noted(states[i]@, scope@, revision, offered, times[i]);
    assert(states[i + 1]@.scopes.contains_key(scope@));
    lemma_revision_kept(decode, states, msgs, times, answers, scope@, i + 1, j);
}

} // verus!
