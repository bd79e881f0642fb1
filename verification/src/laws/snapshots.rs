//! What a snapshot of a scope leaves behind, and how snapshots follow each other.

use vstd::prelude::*;
use vstd::utf8::encode_utf8;
use crate::laws::timing::begins;
use crate::model::{error_text, ErrorView};
use crate::reconcile::{
    asks_about, candidate_fault, candidates_fault, distinct_keys, kept, lemma_no_fault,
    lemma_placed, lemma_valid_keys, offers, placed, reconciled, repeats_key, same_contents,
    unchanged, CandidateView,
};
use crate::schedule::{pattern_after, schedule_fault, ScheduleView};
use crate::state::{new_scope, RegistrationView, StateView};
use crate::time::{Reading, Timestamp};

verus! {

/// Whether a snapshot of a scope gets past the revision check.
pub open spec fn looked_into(state: StateView, scope: Seq<char>, revision: u64) -> bool {
    !state.shutting_down && (state.scopes.contains_key(scope)
        ==> state.scopes[scope].source_revision <= revision)
}

/// A snapshot that is looked into leaves its revision with its scope, whether it is applied or
/// refused for its contents. If it is applied, that is the applied revision and no error is left;
/// if it is refused, the reason is left and the applied revision stays.
pub proof fn revision_is_noted(
    state: StateView,
    scope: Seq<char>,
    revision: u64,
    offered: Seq<CandidateView>,
    now: Reading,
)
    requires
        looked_into(state, scope, revision),
    ensures
        ({
            let (after, answer) = reconciled(state, scope, revision, offered, now);
            let noted = after.scopes[scope];
            &&& after.scopes == state.scopes.insert(scope, noted)
            &&& noted.source_revision == revision
            &&& answer is Ok ==> noted.applied_revision == Some(revision) && noted.last_error
                is None
            &&& answer matches Err(e) ==> noted.last_error == Some(error_text(e))
            &&& answer is Err ==> noted.applied_revision == if state.scopes.contains_key(scope) {
                state.scopes[scope].applied_revision
            } else {
                None
            }
            &&& answer != Err::<(), ErrorView>(ErrorView::StaleRevision)
            &&& after == (StateView {
                jobs: after.jobs,
                generation: after.generation,
                scopes: after.scopes,
                ..state
            })
        }),
{
    if reconciled(state, scope, revision, offered, now).1 is Err {
        lemma_not_stale(state, scope, offered, offered.len(), now.wall);
    }
}

/// A service that shuts down refuses every snapshot as such, whatever its revision, and one that
/// does not refuses an older revision as stale; neither changes anything.
pub proof fn snapshots_are_refused_unseen(
    state: StateView,
    scope: Seq<char>,
    revision: u64,
    offered: Seq<CandidateView>,
    now: Reading,
)
    requires
        !looked_into(state, scope, revision),
    ensures
        reconciled(state, scope, revision, offered, now) == (
            state,
            Err::<(), ErrorView>(
                if state.shutting_down {
                    ErrorView::ShuttingDown
                } else {
                    ErrorView::StaleRevision
                },
            ),
        ),
{
}

/// No complaint about a candidate is that of a stale revision.
proof fn lemma_not_stale(
    state: StateView,
    scope: Seq<char>,
    offered: Seq<CandidateView>,
    n: nat,
    now: Timestamp,
)
    ensures
        candidates_fault(state, scope, offered, n, now) matches Some(e) ==> e is Invalid,
    decreases n,
{
    if n > 0 {
        lemma_not_stale(state, scope, offered, (n - 1) as nat, now);
    }
}

/// Revisions of a scope only go forward: once a snapshot was looked into, applied or not, every
/// later one of that scope with a lower revision is refused as stale and changes nothing, however
/// many others came between, and one with the same or a higher revision is looked into.
pub proof fn revisions_go_forward(
    state: StateView,
    scope: Seq<char>,
    revision: u64,
    offered: Seq<CandidateView>,
    now: Reading,
    next: u64,
    again: Seq<CandidateView>,
    later: Reading,
)
    requires
        looked_into(state, scope, revision),
    ensures
        ({
            let first = reconciled(state, scope, revision, offered, now).0;
            let (second, answer) = reconciled(first, scope, next, again, later);
            &&& next < revision ==> second == first && answer == Err::<(), ErrorView>(
                ErrorView::StaleRevision,
            )
            &&& next >= revision ==> looked_into(first, scope, next)
                && second.scopes[scope].source_revision == next
        }),
{
    revision_is_noted(state, scope, revision, offered, now);
    let first = reconciled(state, scope, revision, offered, now).0;
    if next >= revision {
        revision_is_noted(first, scope, next, again, later);
    }
}

/// A revision that is refused as stale leaves what its scope noted, and no snapshot ever lowers
/// the revision that a scope noted, its own or another's.
pub proof fn noted_revision_never_falls(
    state: StateView,
    scope: Seq<char>,
    revision: u64,
    offered: Seq<CandidateView>,
    now: Reading,
    other: Seq<char>,
)
    requires
        state.scopes.contains_key(other),
    ensures
        ({
            let after = reconciled(state, scope, revision, offered, now).0;
            &&& after.scopes.contains_key(other)
            &&& after.scopes[other].source_revision >= state.scopes[other].source_revision
            &&& other != scope ==> after.scopes[other] == state.scopes[other]
        }),
{
}

/// Whether nothing speaks against the candidate at `i` of a snapshot: its names and its input are
/// within their sizes, its decoder accepts the input, its schedule is valid, it belongs to the
/// scope, and no earlier candidate and no other scope has its key.
pub open spec fn welcome(
    state: StateView,
    scope: Seq<char>,
    offered: Seq<CandidateView>,
    i: int,
    now: Timestamp,
) -> bool {
    let definition = offered[i].job.definition;
    &&& named(offered[i])
    &&& encode_utf8(offered[i].job.input).len() <= state.limits.input_bytes
    &&& offered[i].decoding is Accepted
    &&& schedule_fault(definition.schedule, now) is None
    &&& definition.scope == scope
    &&& forall|j: int| 0 <= j < i ==> (#[trigger] offered[j]).job.definition.key != definition.key
    &&& state.jobs.contains_key(definition.key)
        ==> state.jobs[definition.key].job.definition.scope == scope
}

/// Whether the names of a candidate are within their sizes.
pub open spec fn named(candidate: CandidateView) -> bool {
    let definition = candidate.job.definition;
    &&& 1 <= encode_utf8(definition.key).len() <= 512
    &&& 1 <= encode_utf8(definition.scope).len() <= 128
    &&& encode_utf8(definition.name).len() <= 1024
    &&& encode_utf8(definition.managed_by).len() <= 512
}

/// Whether an earlier candidate has the key of the one at `i`.
pub open spec fn taken_before(offered: Seq<CandidateView>, i: int) -> bool {
    exists|j: int|
        0 <= j < i && (#[trigger] offered[j]).job.definition.key == offered[i].job.definition.key
}

/// What is wrong with a candidate that is not welcome.
pub open spec fn complaint(
    state: StateView,
    scope: Seq<char>,
    offered: Seq<CandidateView>,
    i: int,
    now: Timestamp,
) -> ErrorView {
    let definition = offered[i].job.definition;
    if !named(offered[i]) {
        ErrorView::Invalid("invalid job identity/metadata"@)
    } else if encode_utf8(offered[i].job.input).len() > state.limits.input_bytes {
        ErrorView::Invalid("input limit"@)
    } else if offered[i].decoding is Panicked {
        ErrorView::Invalid("input decoder panicked"@)
    } else if offered[i].decoding is Refused {
        ErrorView::Invalid(offered[i].decoding->Refused_0)
    } else if schedule_fault(definition.schedule, now) is Some {
        schedule_fault(definition.schedule, now)->0
    } else if definition.scope != scope || taken_before(offered, i) {
        ErrorView::Invalid("scope/key mismatch"@)
    } else {
        ErrorView::Invalid("job belongs to another scope"@)
    }
}

proof fn lemma_welcome(
    state: StateView,
    scope: Seq<char>,
    offered: Seq<CandidateView>,
    i: int,
    now: Timestamp,
)
    requires
        0 <= i < offered.len(),
    ensures
        welcome(state, scope, offered, i, now) ==> candidate_fault(state, scope, offered, i, now)
            is None,
        !welcome(state, scope, offered, i, now) ==> candidate_fault(state, scope, offered, i, now)
            == Some(complaint(state, scope, offered, i, now)),
{
    if repeats_key(offered, i) {
        let j = choose|j: int| 0 <= j < i && #[trigger] offered[j].key() == offered[i].key();
        assert(offered[j].job.definition.key == offered[i].job.definition.key);
        assert(taken_before(offered, i));
    }
    if taken_before(offered, i) {
        let j = choose|j: int|
            0 <= j < i && (#[trigger] offered[j]).job.definition.key
                == offered[i].job.definition.key;
        assert(offered[j].key() == offered[i].key());
        assert(repeats_key(offered, i));
    }
}

proof fn lemma_all_welcome(
    state: StateView,
    scope: Seq<char>,
    offered: Seq<CandidateView>,
    n: nat,
    now: Timestamp,
)
    requires
        n <= offered.len(),
        forall|i: int| 0 <= i < n ==> #[trigger] welcome(state, scope, offered, i, now),
    ensures
        candidates_fault(state, scope, offered, n, now) is None,
    decreases n,
{
    if n > 0 {
        lemma_all_welcome(state, scope, offered, (n - 1) as nat, now);
        assert(welcome(state, scope, offered, n - 1, now));
        lemma_welcome(state, scope, offered, n - 1, now);
    }
}

proof fn lemma_fault_stays(
    state: StateView,
    scope: Seq<char>,
    offered: Seq<CandidateView>,
    m: nat,
    n: nat,
    now: Timestamp,
)
    requires
        m <= n,
        candidates_fault(state, scope, offered, m, now) is Some,
    ensures
        candidates_fault(state, scope, offered, n, now) == candidates_fault(
            state,
            scope,
            offered,
            m,
            now,
        ),
    decreases n,
{
    if m < n {
        lemma_fault_stays(state, scope, offered, m, (n - 1) as nat, now);
    }
}

/// The first candidate that is not welcome refuses the whole snapshot, with what is wrong with it.
pub proof fn first_bad_candidate_is_the_reason(
    state: StateView,
    scope: Seq<char>,
    revision: u64,
    offered: Seq<CandidateView>,
    now: Reading,
    i: int,
)
    requires
        looked_into(state, scope, revision),
        0 <= i < offered.len(),
        forall|j: int| 0 <= j < i ==> #[trigger] welcome(state, scope, offered, j, now.wall),
        !welcome(state, scope, offered, i, now.wall),
    ensures
        reconciled(state, scope, revision, offered, now).1 == Err::<(), ErrorView>(
            complaint(state, scope, offered, i, now.wall),
        ),
{
    lemma_all_welcome(state, scope, offered, i as nat, now.wall);
    lemma_welcome(state, scope, offered, i, now.wall);
    lemma_fault_stays(state, scope, offered, (i + 1) as nat, offered.len(), now.wall);
}

/// Whether a scope has exactly the offered jobs registered.
pub open spec fn registers_exactly(
    jobs: Map<Seq<char>, RegistrationView>,
    scope: Seq<char>,
    offered: Seq<CandidateView>,
) -> bool {
    &&& forall|i: int|
        0 <= i < offered.len() ==> jobs.contains_key((#[trigger] offered[i]).job.definition.key)
            && jobs[offered[i].job.definition.key].job == offered[i].job
    &&& forall|key: Seq<char>| #[trigger]
        jobs.contains_key(key) && jobs[key].job.definition.scope == scope ==> named_among(
            offered,
            key,
        )
}

/// Whether some candidate has a key.
pub open spec fn named_among(offered: Seq<CandidateView>, key: Seq<char>) -> bool {
    exists|i: int| 0 <= i < offered.len() && (#[trigger] offered[i]).job.definition.key == key
}

proof fn lemma_registers(
    state: StateView,
    scope: Seq<char>,
    offered: Seq<CandidateView>,
)
    ensures
        registers_exactly(state.jobs, scope, offered) == same_contents(state, scope, offered),
        forall|key: Seq<char>| #[trigger] named_among(offered, key) == offers(offered, key),
{
    assert forall|key: Seq<char>| #[trigger] named_among(offered, key) == offers(offered, key) by {
        if named_among(offered, key) {
            let i = choose|i: int|
                0 <= i < offered.len() && (#[trigger] offered[i]).job.definition.key == key;
            assert(offered[i].key() == key);
        }
        if offers(offered, key) {
            let i = choose|i: int| 0 <= i < offered.len() && #[trigger] offered[i].key() == key;
            assert(offered[i].job.definition.key == key);
        }
    }
    if same_contents(state, scope, offered) {
        assert forall|i: int| 0 <= i < offered.len() implies state.jobs.contains_key(
            (#[trigger] offered[i]).job.definition.key,
        ) && state.jobs[offered[i].job.definition.key].job == offered[i].job by {
            assert(offered[i].key() == offered[i].job.definition.key);
        }
    }
    if registers_exactly(state.jobs, scope, offered) {
        assert forall|i: int| 0 <= i < offered.len() implies state.jobs.contains_key(
            (#[trigger] offered[i]).key(),
        ) && state.jobs[offered[i].key()].job == offered[i].job by {
            assert(offered[i].key() == offered[i].job.definition.key);
        }
    }
}

/// A snapshot that is looked into and whose candidates are all welcome is applied, unless its
/// revision was applied with other contents.
pub proof fn welcome_snapshot_is_applied(
    state: StateView,
    scope: Seq<char>,
    revision: u64,
    offered: Seq<CandidateView>,
    now: Reading,
)
    requires
        looked_into(state, scope, revision),
        forall|i: int|
            0 <= i < offered.len() ==> #[trigger] welcome(state, scope, offered, i, now.wall),
    ensures
        reconciled(state, scope, revision, offered, now).1 == if state.scopes.contains_key(scope)
            && state.scopes[scope].applied_revision == Some(revision) && !registers_exactly(
            state.jobs,
            scope,
            offered,
        ) {
            Err::<(), ErrorView>(ErrorView::Invalid("same revision changed contents"@))
        } else {
            Ok::<(), ErrorView>(())
        },
{
    lemma_all_welcome(state, scope, offered, offered.len(), now.wall);
    lemma_registers(state, scope, offered);
}

/// A decoder is asked about a job's default input exactly if the snapshot is looked into, every
/// candidate before is welcome, and the job's names and input are within their sizes.
pub proof fn decoder_is_asked_in_turn(
    state: StateView,
    scope: Seq<char>,
    revision: u64,
    offered: Seq<CandidateView>,
    i: int,
    now: Timestamp,
)
    requires
        0 <= i < offered.len(),
    ensures
        asks_about(state, scope, revision, offered, i, now) <==> {
            &&& looked_into(state, scope, revision)
            &&& forall|j: int| 0 <= j < i ==> #[trigger] welcome(state, scope, offered, j, now)
            &&& named(offered[i])
            &&& encode_utf8(offered[i].job.input).len() <= state.limits.input_bytes
        },
{
    if candidates_fault(state, scope, offered, i as nat, now) is None {
        assert forall|j: int| 0 <= j < i implies #[trigger] welcome(
            state,
            scope,
            offered,
            j,
            now,
        ) by {
            lemma_no_fault(state, scope, offered, j, i as nat, now);
            lemma_welcome(state, scope, offered, j, now);
        }
    }
    if forall|j: int| 0 <= j < i ==> #[trigger] welcome(state, scope, offered, j, now) {
        lemma_all_welcome(state, scope, offered, i as nat, now);
    }
}

/// A scope that was never reconciled has no revision applied and no error.
pub proof fn unknown_scope_is_blank()
    ensures
        new_scope().source_revision == 0,
        new_scope().applied_revision is None,
        new_scope().last_error is None,
{
}

/// How many of the first `n` candidates are not registered as they are.
pub open spec fn changed_among(
    jobs: Map<Seq<char>, RegistrationView>,
    offered: Seq<CandidateView>,
    n: nat,
) -> nat
    decreases n,
{
    if n == 0 {
        0
    } else {
        let job = offered[n - 1].job;
        let key = job.definition.key;
        changed_among(jobs, offered, (n - 1) as nat) + if jobs.contains_key(key) && jobs[key].job
            == job {
            0nat
        } else {
            1nat
        }
    }
}

proof fn lemma_generation(
    jobs: Map<Seq<char>, RegistrationView>,
    base: Map<Seq<char>, RegistrationView>,
    generation: int,
    offered: Seq<CandidateView>,
    n: nat,
    now: Reading,
    i: int,
)
    requires
        n <= offered.len(),
        distinct_keys(offered),
        forall|k: int|
            0 <= k < offered.len() ==> base.contains_key((#[trigger] offered[k]).key())
                == jobs.contains_key(offered[k].key()) && (jobs.contains_key(offered[k].key())
                ==> base[offered[k].key()] == jobs[offered[k].key()]),
        0 <= generation,
        generation + n <= u64::MAX,
    ensures
        placed(base, generation, offered, n, now).1 == generation + changed_among(
            jobs,
            offered,
            n,
        ),
        0 <= i < n && !unchanged(jobs, offered[i].job) ==> placed(
            base,
            generation,
            offered,
            n,
            now,
        ).0[offered[i].key()].generation == generation + changed_among(
            jobs,
            offered,
            (i + 1) as nat,
        ),
        changed_among(jobs, offered, n) <= n,
    decreases n,
{
    if n > 0 {
        let m = (n - 1) as nat;
        lemma_generation(jobs, base, generation, offered, m, now, i);
        lemma_placed(base, generation, offered, m, now);
        let before = placed(base, generation, offered, m, now);
        let last = offered[n - 1];
        assert(forall|j: int| 0 <= j < m ==> #[trigger] offered[j].key() != last.key());
        assert(before.0.contains_key(last.key()) == base.contains_key(last.key()));
        assert(unchanged(before.0, last.job) == unchanged(jobs, last.job));
        if 0 <= i < m {
            assert(offered[i].key() != last.key());
        }
    }
}

/// After a snapshot was applied, its scope has exactly the offered jobs; jobs of other scopes are
/// registered as before. A job that was registered as it is keeps its registration. Any other
/// takes the next generation, in the order offered, and begins to wait now; the service's
/// generation goes up by their number.
pub proof fn applied_snapshot_takes_over(
    state: StateView,
    scope: Seq<char>,
    revision: u64,
    offered: Seq<CandidateView>,
    now: Reading,
    key: Seq<char>,
    i: int,
)
    requires
        now.usable(),
        reconciled(state, scope, revision, offered, now).1 is Ok,
        state.generation + offered.len() <= u64::MAX,
    ensures
        ({
            let after = reconciled(state, scope, revision, offered, now).0;
            let job = offered[i].job;
            let place = after.jobs[job.definition.key];
            let known = state.jobs.contains_key(job.definition.key)
                && state.jobs[job.definition.key].job == job;
            &&& after.jobs.contains_key(key) <==> named_among(offered, key)
                || state.jobs.contains_key(key) && state.jobs[key].job.definition.scope != scope
            &&& after.jobs.contains_key(key) && !named_among(offered, key) ==> after.jobs[key]
                == state.jobs[key]
            &&& 0 <= i < offered.len() ==> place.job == job
            &&& 0 <= i < offered.len() && known ==> place == state.jobs[job.definition.key]
            &&& 0 <= i < offered.len() && !known ==> place.generation == state.generation
                + changed_among(state.jobs, offered, (i + 1) as nat)
            &&& 0 <= i < offered.len() && !known ==> begins(
                job.definition.schedule,
                place.timing,
                now,
            )
            &&& after.generation == state.generation + changed_among(
                state.jobs,
                offered,
                offered.len(),
            )
        }),
{
    let after = reconciled(state, scope, revision, offered, now).0;
    lemma_valid_keys(state, scope, offered, now.wall);
    lemma_registers(state, scope, offered);
    let base = kept(state.jobs, scope, offered);
    assert forall|k: int| 0 <= k < offered.len() implies base.contains_key(
        (#[trigger] offered[k]).key(),
    ) == state.jobs.contains_key(offered[k].key()) && (state.jobs.contains_key(offered[k].key())
        ==> base[offered[k].key()] == state.jobs[offered[k].key()]) by {
        assert(offers(offered, offered[k].key()));
    }
    lemma_placed(base, state.generation as int, offered, offered.len(), now);
    lemma_generation(
        state.jobs,
        base,
        state.generation as int,
        offered,
        offered.len(),
        now,
        i,
    );
    let named = named_among(offered, key);
    assert(named == offers(offered, key));
    if named {
        let j = choose|j: int| 0 <= j < offered.len() && #[trigger] offered[j].key() == key;
        assert(after.jobs.contains_key(offered[j].key()));
    } else {
        assert forall|j: int| 0 <= j < offered.len() implies #[trigger] offered[j].key() != key by {
            if offered[j].key() == key {
                assert(offers(offered, key));
            }
        }
        assert(after.jobs.contains_key(key) == base.contains_key(key));
    }
    if 0 <= i < offered.len() {
        assert(offered[i].key() == offered[i].job.definition.key);
        assert(unchanged(base, offered[i].job) == unchanged(state.jobs, offered[i].job));
        lemma_no_fault(state, scope, offered, i, offered.len(), now.wall);
        if !unchanged(state.jobs, offered[i].job) {
            crate::laws::timing::first_wait_is_full(offered[i].job.definition.schedule, now);
        }
    }
}

/// A calendar job that a snapshot registers waits, by the wall clock alone, for the occurrence of
/// its own expression in its own zone after now.
pub proof fn registered_calendar_waits_in_its_zone(
    state: StateView,
    scope: Seq<char>,
    revision: u64,
    offered: Seq<CandidateView>,
    now: Reading,
    i: int,
    expression: Seq<char>,
    timezone: Seq<char>,
)
    requires
        now.usable(),
        reconciled(state, scope, revision, offered, now).1 is Ok,
        state.generation + offered.len() <= u64::MAX,
        0 <= i < offered.len(),
        !(state.jobs.contains_key(offered[i].job.definition.key)
            && state.jobs[offered[i].job.definition.key].job == offered[i].job),
        offered[i].job.definition.schedule == (ScheduleView::Cron {
            expression,
            timezone,
        }),
    ensures
        ({
            let after = reconciled(state, scope, revision, offered, now).0;
            let timing = after.jobs[offered[i].job.definition.key].timing;
            let found = pattern_after(
                expression,
                timezone,
                now.wall.nanos as int / 1_000_000_000,
                now.wall.nanos as int % 1_000_000_000,
            );
            &&& timing.deadline is None
            &&& found matches Ok((seconds, nanos)) && timing.next == Some(
                Timestamp { nanos: (seconds * 1_000_000_000 + nanos) as i128 },
            )
        }),
{
    applied_snapshot_takes_over(
        state,
        scope,
        revision,
        offered,
        now,
        offered[i].job.definition.key,
        i,
    );
    lemma_no_fault(state, scope, offered, i, offered.len(), now.wall);
}

} // verus!
