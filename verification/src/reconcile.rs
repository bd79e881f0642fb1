//! Reconciliation: a full snapshot of a scope replaces the scope's registrations, or nothing.

use vstd::prelude::*;
use crate::job::{identity_fits, job_fault, Decoding, DecodingView, Job, JobView};
use crate::model::{error_text, Error, ErrorView};
use crate::schedule::{first_timing, initial_due};
use crate::state::{
    new_scope, registered_as, registrations_fit, Registration, RegistrationView, ScopeSnapshot,
    ScopeView, State, StateView,
};
use crate::text::{byte_len, same_text};
use crate::time::{Reading, Timestamp};

verus! {

/// A job offered for registration, with what its decoder makes of its default input.
#[derive(Debug)]
pub struct Candidate {
    pub job: Job,
    pub decoding: Decoding,
}

pub struct CandidateView {
    pub job: JobView,
    pub decoding: DecodingView,
}

impl View for Candidate {
    type V = CandidateView;

    open spec fn view(&self) -> CandidateView {
        CandidateView { job: self.job@, decoding: self.decoding@ }
    }
}

impl CandidateView {
    pub open spec fn key(self) -> Seq<char> {
        self.job.definition.key
    }
}

/// The contents of a list of candidates.
pub open spec fn candidate_views(candidates: Seq<Candidate>) -> Seq<CandidateView> {
    candidates.map_values(|candidate: Candidate| candidate@)
}

/// Whether an earlier candidate has the key of the one at `i`.
pub open spec fn repeats_key(offered: Seq<CandidateView>, i: int) -> bool {
    exists|j: int| 0 <= j < i && #[trigger] offered[j].key() == offered[i].key()
}

/// Whether some candidate has a key.
pub open spec fn offers(offered: Seq<CandidateView>, key: Seq<char>) -> bool {
    exists|j: int| 0 <= j < offered.len() && #[trigger] offered[j].key() == key
}

/// What speaks against the candidate at `i`.
pub open spec fn candidate_fault(
    state: StateView,
    scope: Seq<char>,
    offered: Seq<CandidateView>,
    i: int,
    now: Timestamp,
) -> Option<ErrorView> {
    let job = offered[i].job;
    match job_fault(job, state.limits.input_bytes as nat, offered[i].decoding, now) {
        Some(e) => Some(e),
        None => if job.definition.scope != scope || repeats_key(offered, i) {
            Some(ErrorView::Invalid("scope/key mismatch"@))
        } else if state.jobs.contains_key(job.definition.key)
            && state.jobs[job.definition.key].job.definition.scope != scope {
            Some(ErrorView::Invalid("job belongs to another scope"@))
        } else {
            None
        },
    }
}

/// The first thing that speaks against one of the first `n` candidates.
pub open spec fn candidates_fault(
    state: StateView,
    scope: Seq<char>,
    offered: Seq<CandidateView>,
    n: nat,
    now: Timestamp,
) -> Option<ErrorView>
    decreases n,
{
    if n == 0 {
        None
    } else {
        match candidates_fault(state, scope, offered, (n - 1) as nat, now) {
            Some(e) => Some(e),
            None => candidate_fault(state, scope, offered, n - 1, now),
        }
    }
}

/// Whether the candidates are exactly the jobs that a scope has registered.
pub open spec fn same_contents(
    state: StateView,
    scope: Seq<char>,
    offered: Seq<CandidateView>,
) -> bool {
    &&& forall|i: int|
        0 <= i < offered.len() ==> state.jobs.contains_key((#[trigger] offered[i]).key())
            && state.jobs[offered[i].key()].job == offered[i].job
    &&& forall|key: Seq<char>| #[trigger]
        state.jobs.contains_key(key) && state.jobs[key].job.definition.scope == scope ==> offers(
            offered,
            key,
        )
}

/// What speaks against a snapshot: a candidate, or a revision that was applied with other
/// contents.
pub open spec fn snapshot_fault(
    state: StateView,
    scope: Seq<char>,
    revision: u64,
    offered: Seq<CandidateView>,
    now: Timestamp,
) -> Option<ErrorView> {
    match candidates_fault(state, scope, offered, offered.len(), now) {
        Some(e) => Some(e),
        None => if state.scopes.contains_key(scope) && state.scopes[scope].applied_revision
            == Some(revision) && !same_contents(state, scope, offered) {
            Some(ErrorView::Invalid("same revision changed contents"@))
        } else {
            None
        },
    }
}

/// What is known of a scope, also where nothing is.
pub open spec fn scope_of(state: StateView, scope: Seq<char>) -> ScopeView {
    if state.scopes.contains_key(scope) {
        state.scopes[scope]
    } else {
        new_scope()
    }
}

/// The state after a snapshot was refused: the scope notes the revision and the reason.
pub open spec fn with_refused(
    state: StateView,
    scope: Seq<char>,
    revision: u64,
    fault: ErrorView,
) -> StateView {
    StateView {
        scopes: state.scopes.insert(
            scope,
            ScopeView {
                source_revision: revision,
                applied_revision: scope_of(state, scope).applied_revision,
                last_error: Some(error_text(fault)),
            },
        ),
        ..state
    }
}

/// The registrations that a snapshot of a scope keeps: those of other scopes, and those whose
/// keys are offered again.
pub open spec fn kept(
    jobs: Map<Seq<char>, RegistrationView>,
    scope: Seq<char>,
    offered: Seq<CandidateView>,
) -> Map<Seq<char>, RegistrationView> {
    Map::new(
        |key: Seq<char>|
            jobs.contains_key(key) && (jobs[key].job.definition.scope != scope || offers(
                offered,
                key,
            )),
        |key: Seq<char>| jobs[key],
    )
}

/// Whether a job is registered as it is.
pub open spec fn unchanged(jobs: Map<Seq<char>, RegistrationView>, job: JobView) -> bool {
    jobs.contains_key(job.definition.key) && jobs[job.definition.key].job == job
}

/// The registrations and the generation after the first `n` candidates were placed: an unchanged
/// job keeps its registration, any other gets the next generation and a first deadline.
pub open spec fn placed(
    jobs: Map<Seq<char>, RegistrationView>,
    generation: int,
    offered: Seq<CandidateView>,
    n: nat,
    now: Reading,
) -> (Map<Seq<char>, RegistrationView>, int)
    decreases n,
{
    if n == 0 {
        (jobs, generation)
    } else {
        let before = placed(jobs, generation, offered, (n - 1) as nat, now);
        let job = offered[n - 1].job;
        if unchanged(before.0, job) {
            before
        } else {
            (
                before.0.insert(
                    job.definition.key,
                    RegistrationView {
                        job,
                        generation: (before.1 + 1) as u64,
                        timing: first_timing(job.definition.schedule, now),
                    },
                ),
                before.1 + 1,
            )
        }
    }
}

/// The state after a snapshot was applied.
pub open spec fn with_applied(
    state: StateView,
    scope: Seq<char>,
    revision: u64,
    offered: Seq<CandidateView>,
    now: Reading,
) -> StateView {
    let next = placed(
        kept(state.jobs, scope, offered),
        state.generation as int,
        offered,
        offered.len(),
        now,
    );
    StateView {
        jobs: next.0,
        generation: next.1 as u64,
        scopes: state.scopes.insert(
            scope,
            ScopeView {
                source_revision: revision,
                applied_revision: Some(revision),
                last_error: None,
            },
        ),
        ..state
    }
}

/// What refuses a snapshot before it is looked at.
pub open spec fn revision_fault(
    state: StateView,
    scope: Seq<char>,
    revision: u64,
) -> Option<ErrorView> {
    if state.shutting_down {
        Some(ErrorView::ShuttingDown)
    } else if state.scopes.contains_key(scope) && revision < state.scopes[scope].source_revision {
        Some(ErrorView::StaleRevision)
    } else {
        None
    }
}

/// The state and the answer after a snapshot was offered.
pub open spec fn reconciled(
    state: StateView,
    scope: Seq<char>,
    revision: u64,
    offered: Seq<CandidateView>,
    now: Reading,
) -> (StateView, Result<(), ErrorView>) {
    match revision_fault(state, scope, revision) {
        Some(e) => (state, Err(e)),
        None => match snapshot_fault(state, scope, revision, offered, now.wall) {
            Some(e) => (with_refused(state, scope, revision, e), Err(e)),
            None => (with_applied(state, scope, revision, offered, now), Ok(())),
        },
    }
}

/// The contents of an answer.
pub open spec fn answer_view(answer: Result<(), Error>) -> Result<(), ErrorView> {
    match answer {
        Ok(()) => Ok(()),
        Err(e) => Err(e@),
    }
}

/// Whether some of the first `n` candidates has a key.
fn key_among(candidates: &Vec<Candidate>, n: usize, key: &str) -> (found: bool)
    requires
        n <= candidates@.len(),
    ensures
        found == exists|j: int|
            0 <= j < n && #[trigger] candidate_views(candidates@)[j].key() == key@,
{
    let mut i: usize = 0;
    while i < n
        invariant
            i <= n <= candidates@.len(),
            forall|j: int|
                0 <= j < i ==> #[trigger] candidate_views(candidates@)[j].key() != key@,
        decreases n - i,
    {
        if same_text(candidates[i].job.definition.key.as_str(), key) {
            assert(candidate_views(candidates@)[i as int].key() == key@);
            return true;
        }
        assert(candidate_views(candidates@)[i as int].key() != key@);
        i = i + 1;
    }
    false
}

/// Whether the decoder of the candidate at `i` is asked: nothing refuses the snapshot before it
/// comes to the decoder.
pub open spec fn asks_about(
    state: StateView,
    scope: Seq<char>,
    revision: u64,
    offered: Seq<CandidateView>,
    i: int,
    now: Timestamp,
) -> bool {
    &&& revision_fault(state, scope, revision) is None
    &&& candidates_fault(state, scope, offered, i as nat, now) is None
    &&& identity_fits(offered[i].job.definition)
    &&& byte_len(offered[i].job.input) <= state.limits.input_bytes
}

/// What speaks against the first candidates does not depend on those behind them.
proof fn lemma_fault_of_first(
    state: StateView,
    scope: Seq<char>,
    a: Seq<CandidateView>,
    b: Seq<CandidateView>,
    n: nat,
    now: Timestamp,
)
    requires
        n <= a.len(),
        n <= b.len(),
        forall|i: int| 0 <= i < n ==> #[trigger] a[i] == b[i],
    ensures
        candidates_fault(state, scope, a, n, now) == candidates_fault(state, scope, b, n, now),
    decreases n,
{
    if n > 0 {
        lemma_fault_of_first(state, scope, a, b, (n - 1) as nat, now);
        assert(a[n - 1] == b[n - 1]);
        if repeats_key(a, n - 1) {
            let j = choose|j: int| 0 <= j < n - 1 && #[trigger] a[j].key() == a[n - 1].key();
            assert(b[j].key() == b[n - 1].key());
        }
        if repeats_key(b, n - 1) {
            let j = choose|j: int| 0 <= j < n - 1 && #[trigger] b[j].key() == b[n - 1].key();
            assert(a[j].key() == a[n - 1].key());
        }
    }
}

impl State {
    /// What speaks against the candidate at `i`.
    fn candidate_error(
        &self,
        scope: &str,
        candidates: &Vec<Candidate>,
        i: usize,
        now: Timestamp,
    ) -> (fault: Option<Error>)
        requires
            self.wf(),
            now.local_everywhere(),
            i < candidates@.len(),
        ensures
            match fault {
                Some(e) => candidate_fault(
                    self@,
                    scope@,
                    candidate_views(candidates@),
                    i as int,
                    now,
                ) == Some(e@),
                None => candidate_fault(
                    self@,
                    scope@,
                    candidate_views(candidates@),
                    i as int,
                    now,
                ) is None,
            },
    {
        let candidate = &candidates[i];
        assert(candidate_views(candidates@)[i as int] == candidate@);
        match candidate.job.validate_definition(
            self.limits.input_bytes,
            &candidate.decoding,
            now,
        ) {
            Err(e) => Some(e),
            Ok(()) => if !same_text(candidate.job.definition.scope.as_str(), scope) || key_among(
                candidates,
                i,
                candidate.job.definition.key.as_str(),
            ) {
                Some(Error::Invalid("scope/key mismatch".to_string()))
            } else {
                match self.jobs.get(&candidate.job.definition.key) {
                    Some(registration) => if !same_text(
                        registration.job.definition.scope.as_str(),
                        scope,
                    ) {
                        Some(Error::Invalid("job belongs to another scope".to_string()))
                    } else {
                        None
                    },
                    None => None,
                }
            },
        }
    }

    /// Asks the decoders of offered jobs about their default inputs, as far as the snapshot comes:
    /// `decode` tells what the decoder of the job at a position says. One that is not asked counts
    /// as accepting, which nothing depends on.
    pub fn consult<F: Fn(usize) -> Decoding>(
        &self,
        scope: &String,
        revision: u64,
        jobs: Vec<Job>,
        now: Timestamp,
        decode: F,
    ) -> (candidates: Vec<Candidate>)
        requires
            self.wf(),
            now.local_everywhere(),
            forall|i: usize| i < jobs@.len() ==> call_requires(decode, (i,)),
        ensures
            candidates@.len() == jobs@.len(),
            forall|i: usize|
                i < jobs@.len() ==> {
                    let offered = candidate_views(candidates@);
                    &&& (#[trigger] candidates@[i as int]).job@ == jobs@[i as int]@
                    &&& if asks_about(self@, scope@, revision, offered, i as int, now) {
                        call_ensures(decode, (i,), candidates@[i as int].decoding)
                    } else {
                        candidates@[i as int].decoding is Accepted
                    }
                },
    {
        let mut candidates: Vec<Candidate> = Vec::new();
        let mut clear = !self.shutting_down && match self.scopes.get(scope) {
            Some(snapshot) => revision >= snapshot.source_revision,
            None => true,
        };
        assert(clear == (revision_fault(self@, scope@, revision) is None));
        let mut n: usize = 0;
        while n < jobs.len()
            invariant
                self.wf(),
                now.local_everywhere(),
                n <= jobs@.len(),
                candidates@.len() == n,
                forall|i: usize| i < jobs@.len() ==> call_requires(decode, (i,)),
                clear == (revision_fault(self@, scope@, revision) is None && candidates_fault(
                    self@,
                    scope@,
                    candidate_views(candidates@),
                    n as nat,
                    now,
                ) is None),
                forall|i: usize|
                    i < n ==> {
                        let offered = candidate_views(candidates@);
                        &&& (#[trigger] candidates@[i as int]).job@ == jobs@[i as int]@
                        &&& if asks_about(self@, scope@, revision, offered, i as int, now) {
                            call_ensures(decode, (i,), candidates@[i as int].decoding)
                        } else {
                            candidates@[i as int].decoding is Accepted
                        }
                    },
            decreases jobs@.len() - n,
        {
            let asks = clear && jobs[n].asks_decoder(self.limits.input_bytes);
            let decoding = if asks {
                decode(n)
            } else {
                Decoding::Accepted
            };
            let ghost before = candidate_views(candidates@);
            let ghost held = candidates@;
            candidates.push(Candidate { job: jobs[n].clone(), decoding });
            proof {
                let after = candidate_views(candidates@);
                assert forall|i: usize| i <= n implies candidates_fault(
                    self@,
                    scope@,
                    before,
                    i as nat,
                    now,
                ) == #[trigger] candidates_fault(self@, scope@, after, i as nat, now) by {
                    assert forall|j: int| 0 <= j < i implies #[trigger] before[j] == after[j] by {
                        assert(held[j] == candidates@[j]);
                    }
                    lemma_fault_of_first(self@, scope@, before, after, i as nat, now);
                }
                assert(after[n as int].job == jobs@[n as int]@);
                assert(asks == asks_about(self@, scope@, revision, after, n as int, now));
                assert forall|i: usize| i < n + 1 implies {
                    &&& (#[trigger] candidates@[i as int]).job@ == jobs@[i as int]@
                    &&& if asks_about(self@, scope@, revision, after, i as int, now) {
                        call_ensures(decode, (i,), candidates@[i as int].decoding)
                    } else {
                        candidates@[i as int].decoding is Accepted
                    }
                } by {
                    if i < n {
                        assert(held[i as int] == candidates@[i as int]);
                        assert(after[i as int] == before[i as int]);
                        assert(candidates_fault(self@, scope@, before, i as nat, now)
                            == candidates_fault(self@, scope@, after, i as nat, now));
                    }
                }
            }
            if clear {
                clear = match self.candidate_error(scope.as_str(), &candidates, n, now) {
                    Some(_) => false,
                    None => true,
                };
            }
            n = n + 1;
        }
        candidates
    }

    /// Checks each candidate of a snapshot, in order.
    fn check_candidates(
        &self,
        scope: &str,
        candidates: &Vec<Candidate>,
        now: Timestamp,
    ) -> (checked: Result<(), Error>)
        requires
            self.wf(),
            now.local_everywhere(),
        ensures
            checked is Ok <==> candidates_fault(
                self@,
                scope@,
                candidate_views(candidates@),
                candidates@.len(),
                now,
            ) is None,
            checked matches Err(e) ==> candidates_fault(
                self@,
                scope@,
                candidate_views(candidates@),
                candidates@.len(),
                now,
            ) == Some(e@),
    {
        let ghost offered = candidate_views(candidates@);
        let mut i: usize = 0;
        while i < candidates.len()
            invariant
                self.wf(),
                now.local_everywhere(),
                offered == candidate_views(candidates@),
                i <= candidates@.len(),
                candidates_fault(self@, scope@, offered, i as nat, now) is None,
            decreases candidates@.len() - i,
        {
            let fault = self.candidate_error(scope, candidates, i, now);
            match fault {
                Some(e) => {
                    proof {
                        assert(candidate_fault(self@, scope@, offered, i as int, now) == Some(e@));
                        lemma_fault_stays(
                            self@,
                            scope@,
                            offered,
                            (i + 1) as nat,
                            offered.len(),
                            now,
                        );
                    }
                    return Err(e);
                },
                None => {},
            }
            i = i + 1;
        }
        Ok(())
    }

    /// Whether a snapshot holds exactly what its scope has registered.
    fn repeats_contents(&self, scope: &str, candidates: &Vec<Candidate>) -> (same: bool)
        requires
            self.wf(),
        ensures
            same == same_contents(self@, scope@, candidate_views(candidates@)),
    {
        let ghost offered = candidate_views(candidates@);
        let mut i: usize = 0;
        while i < candidates.len()
            invariant
                self.wf(),
                offered == candidate_views(candidates@),
                i <= candidates@.len(),
                forall|j: int|
                    0 <= j < i ==> self@.jobs.contains_key((#[trigger] offered[j]).key())
                        && self@.jobs[offered[j].key()].job == offered[j].job,
            decreases candidates@.len() - i,
        {
            assert(offered[i as int] == candidates@[i as int]@);
            match self.jobs.get(&candidates[i].job.definition.key) {
                Some(registration) => if !registration.job.same(&candidates[i].job) {
                    return false;
                },
                None => {
                    return false;
                },
            }
            i = i + 1;
        }
        let mut k: usize = 0;
        while k < self.jobs.items.len()
            invariant
                self.wf(),
                offered == candidate_views(candidates@),
                k <= self.jobs.items@.len(),
                forall|j: int|
                    0 <= j < k && (#[trigger] self.jobs.items@[j]).1.job.definition.scope@
                        == scope@ ==> offers(offered, self.jobs.key_at(j)),
            decreases self.jobs.items@.len() - k,
        {
            if same_text(self.jobs.items[k].1.job.definition.scope.as_str(), scope) && !key_among(
                candidates,
                candidates.len(),
                self.jobs.items[k].0.as_str(),
            ) {
                proof {
                    self.jobs.lemma_entry(k as int);
                    assert(self@.jobs.contains_key(self.jobs.key_at(k as int)));
                }
                return false;
            }
            k = k + 1;
        }
        proof {
            assert forall|key: Seq<char>| #[trigger]
                self@.jobs.contains_key(key) && self@.jobs[key].job.definition.scope
                    == scope@ implies offers(offered, key) by {
                self.jobs.lemma_key(key);
                let p = self.jobs.position(key);
                assert(self.jobs.items@[p].1.job.definition.scope@ == scope@);
            }
        }
        true
    }

    /// Takes out the registrations of a scope whose keys are not offered.
    fn drop_unoffered(&mut self, scope: &str, candidates: &Vec<Candidate>)
        requires
            old(self).wf(),
        ensures
            final(self).wf(),
            final(self)@ == (StateView {
                jobs: kept(old(self)@.jobs, scope@, candidate_views(candidates@)),
                ..old(self)@
            }),
    {
        let ghost offered = candidate_views(candidates@);
        let ghost all = self.jobs@;
        let mut doomed: Vec<String> = Vec::new();
        let mut i: usize = 0;
        while i < self.jobs.items.len()
            invariant
                self.wf(),
                *self == *old(self),
                offered == candidate_views(candidates@),
                all == self.jobs@,
                i <= self.jobs.items@.len(),
                forall|d: int|
                    0 <= d < doomed@.len() ==> all.contains_key((#[trigger] doomed@[d])@)
                        && all[doomed@[d]@].job.definition.scope == scope@ && !offers(
                        offered,
                        doomed@[d]@,
                    ),
                forall|j: int|
                    0 <= j < i && self.jobs.items@[j].1.job.definition.scope@ == scope@ && !offers(
                        offered,
                        #[trigger] self.jobs.key_at(j),
                    ) ==> exists|d: int|
                        0 <= d < doomed@.len() && (#[trigger] doomed@[d])@ == self.jobs.key_at(j),
            decreases self.jobs.items@.len() - i,
        {
            if same_text(self.jobs.items[i].1.job.definition.scope.as_str(), scope) && !key_among(
                candidates,
                candidates.len(),
                self.jobs.items[i].0.as_str(),
            ) {
                proof {
                    self.jobs.lemma_entry(i as int);
                }
                let ghost before = doomed@;
                let key = self.jobs.items[i].0.clone();
                doomed.push(key);
                proof {
                    assert(doomed@[before.len() as int]@ == self.jobs.key_at(i as int));
                    assert forall|j: int|
                        0 <= j < i + 1 && self.jobs.items@[j].1.job.definition.scope@ == scope@
                            && !offers(offered, #[trigger] self.jobs.key_at(j)) implies exists|
                        d: int,
                    |
                        0 <= d < doomed@.len() && (#[trigger] doomed@[d])@ == self.jobs.key_at(
                            j,
                        ) by {
                        if j < i {
                            let d = choose|d: int|
                                0 <= d < before.len() && (#[trigger] before[d])@
                                    == self.jobs.key_at(j);
                            assert(doomed@[d] == before[d]);
                        }
                    }
                }
            }
            i = i + 1;
        }
        let ghost whole = self.jobs;
        let mut n: usize = 0;
        while n < doomed.len()
            invariant
                self.jobs.wf(),
                whole.wf(),
                all == whole@,
                n <= doomed@.len(),
                forall|key: Seq<char>| #[trigger]
                    self.jobs@.contains_key(key) <==> all.contains_key(key) && !(exists|d: int|
                        0 <= d < n && (#[trigger] doomed@[d])@ == key),
                forall|key: Seq<char>|
                    self.jobs@.contains_key(key) ==> #[trigger] self.jobs@[key] == all[key],
                self.scopes == old(self).scopes,
                self.active == old(self).active,
                self.faults == old(self).faults,
                self.generation == old(self).generation,
                self.maintaining == old(self).maintaining,
                self.maintenance_due == old(self).maintenance_due,
                self.shutting_down == old(self).shutting_down,
                self.limits == old(self).limits,
                self.dropped == old(self).dropped,
                self.missed == old(self).missed,
            decreases doomed@.len() - n,
        {
            let ghost before = self.jobs@;
            let _ = self.jobs.remove(&doomed[n]);
            proof {
                assert forall|key: Seq<char>| #[trigger]
                    self.jobs@.contains_key(key) <==> all.contains_key(key) && !(exists|d: int|
                        0 <= d < n + 1 && (#[trigger] doomed@[d])@ == key) by {
                    if exists|d: int| 0 <= d < n + 1 && (#[trigger] doomed@[d])@ == key {
                        let d = choose|d: int| 0 <= d < n + 1 && (#[trigger] doomed@[d])@ == key;
                        if d < n {
                            assert(!before.contains_key(key));
                        }
                    }
                    if all.contains_key(key) && !self.jobs@.contains_key(key) {
                        if before.contains_key(key) {
                            assert(doomed@[n as int]@ == key);
                        }
                    }
                }
            }
            n = n + 1;
        }
        proof {
            let expected = kept(all, scope@, offered);
            assert forall|key: Seq<char>| #[trigger]
                self.jobs@.contains_key(key) == expected.contains_key(key) by {
                if all.contains_key(key) {
                    whole.lemma_key(key);
                    let p = whole.position(key);
                    assert(whole.key_at(p) == key);
                    if all[key].job.definition.scope == scope@ && !offers(offered, key) {
                        assert(exists|d: int|
                            0 <= d < doomed@.len() && (#[trigger] doomed@[d])@ == key);
                    }
                }
            }
            assert(self.jobs@ =~= expected);
            assert forall|key: Seq<char>| #[trigger]
                self.jobs@.contains_key(key) implies registered_as(self.jobs@[key], key) by {
                assert(all.contains_key(key));
            }
        }
    }

    /// Registers the candidates of a checked snapshot.
    fn place(&mut self, candidates: &Vec<Candidate>, now: Reading)
        requires
            old(self).wf(),
            now.usable(),
            old(self).generation + candidates@.len() <= u64::MAX,
            forall|i: int|
                0 <= i < candidates@.len() ==> job_fault(
                    (#[trigger] candidate_views(candidates@)[i]).job,
                    old(self).limits.input_bytes as nat,
                    candidate_views(candidates@)[i].decoding,
                    now.wall,
                ) is None,
        ensures
            final(self).wf(),
            final(self)@ == ({
                let next = placed(
                    old(self)@.jobs,
                    old(self)@.generation as int,
                    candidate_views(candidates@),
                    candidates@.len(),
                    now,
                );
                StateView { jobs: next.0, generation: next.1 as u64, ..old(self)@ }
            }),
            placed(
                old(self)@.jobs,
                old(self)@.generation as int,
                candidate_views(candidates@),
                candidates@.len(),
                now,
            ).1 <= u64::MAX,
    {
        let ghost offered = candidate_views(candidates@);
        let ghost jobs = self.jobs@;
        let ghost generation = self.generation as int;
        let mut i: usize = 0;
        while i < candidates.len()
            invariant
                self.jobs.wf(),
                registrations_fit(self.jobs@),
                now.usable(),
                i <= candidates@.len(),
                offered == candidate_views(candidates@),
                generation + candidates@.len() <= u64::MAX,
                generation <= self.generation <= generation + i,
                self.jobs@ == placed(jobs, generation, offered, i as nat, now).0,
                self.generation == placed(jobs, generation, offered, i as nat, now).1,
                forall|k: int|
                    0 <= k < candidates@.len() ==> job_fault(
                        (#[trigger] offered[k]).job,
                        self.limits.input_bytes as nat,
                        offered[k].decoding,
                        now.wall,
                    ) is None,
                self.scopes == old(self).scopes,
                self.active == old(self).active,
                self.faults == old(self).faults,
                self.maintaining == old(self).maintaining,
                self.maintenance_due == old(self).maintenance_due,
                self.shutting_down == old(self).shutting_down,
                self.limits == old(self).limits,
                self.dropped == old(self).dropped,
                self.missed == old(self).missed,
            decreases candidates@.len() - i,
        {
            let job = candidates[i].job.clone();
            assert(offered[i as int].job == job@);
            let same = match self.jobs.get(&job.definition.key) {
                Some(registration) => registration.job.same(&job),
                None => false,
            };
            assert(same == unchanged(self.jobs@, job@));
            if !same {
                self.generation = self.generation + 1;
                let timing = initial_due(&job.definition.schedule, now);
                let key = job.definition.key.clone();
                let ghost before = self.jobs@;
                let generation: u64 = self.generation;
                self.jobs.insert(key, Registration { job, generation, timing });
                assert forall|k: Seq<char>| #[trigger]
                    self.jobs@.contains_key(k) implies registered_as(self.jobs@[k], k) by {
                    if k != key@ {
                        assert(before.contains_key(k));
                    }
                }
            }
            i = i + 1;
        }
    }

    /// Offers a full snapshot of a scope. An old revision is refused; a snapshot that is not valid
    /// changes nothing but what is known of its scope; a valid one replaces the registrations of
    /// its scope, and leaves unchanged jobs and all active runs as they are.
    pub fn reconcile(
        &mut self,
        scope: String,
        revision: u64,
        candidates: Vec<Candidate>,
        now: Reading,
    ) -> (answer: Result<(), Error>)
        requires
            old(self).wf(),
            now.usable(),
            old(self).generation + candidates@.len() <= u64::MAX,
        ensures
            final(self).wf(),
            final(self)@ == reconciled(
                old(self)@,
                scope@,
                revision,
                candidate_views(candidates@),
                now,
            ).0,
            answer_view(answer) == reconciled(
                old(self)@,
                scope@,
                revision,
                candidate_views(candidates@),
                now,
            ).1,
    {
        let ghost offered = candidate_views(candidates@);
        if self.shutting_down {
            return Err(Error::ShuttingDown);
        }
        let known = match self.scopes.get(&scope) {
            Some(snapshot) => {
                if revision < snapshot.source_revision {
                    return Err(Error::StaleRevision);
                }
                snapshot.applied_revision
            },
            None => None,
        };
        assert(known == scope_of(self@, scope@).applied_revision);
        let repeated = match known {
            Some(applied) => applied == revision,
            None => false,
        };
        let checked = match self.check_candidates(scope.as_str(), &candidates, now.wall) {
            Err(e) => Err(e),
            Ok(()) => if repeated && !self.repeats_contents(scope.as_str(), &candidates) {
                Err(Error::Invalid("same revision changed contents".to_string()))
            } else {
                Ok(())
            },
        };
        match checked {
            Err(e) => {
                let snapshot = ScopeSnapshot {
                    source_revision: revision,
                    applied_revision: known,
                    last_error: Some(e.text()),
                };
                self.scopes.insert(scope, snapshot);
                Err(e)
            },
            Ok(()) => {
                proof {
                    assert forall|i: int| 0 <= i < offered.len() implies job_fault(
                        (#[trigger] offered[i]).job,
                        self.limits.input_bytes as nat,
                        offered[i].decoding,
                        now.wall,
                    ) is None by {
                        lemma_no_fault(self@, scope@, offered, i, offered.len(), now.wall);
                    }
                }
                self.drop_unoffered(scope.as_str(), &candidates);
                self.place(&candidates, now);
                let snapshot = ScopeSnapshot {
                    source_revision: revision,
                    applied_revision: Some(revision),
                    last_error: None,
                };
                self.scopes.insert(scope, snapshot);
                Ok(())
            },
        }
    }
}

/// A fault among the first candidates is a fault of all of them.
proof fn lemma_fault_stays(
    state: StateView,
    scope: Seq<char>,
    offered: Seq<CandidateView>,
    n: nat,
    m: nat,
    now: Timestamp,
)
    requires
        n <= m,
        candidates_fault(state, scope, offered, n, now) is Some,
    ensures
        candidates_fault(state, scope, offered, m, now) == candidates_fault(
            state,
            scope,
            offered,
            n,
            now,
        ),
    decreases m,
{
    if n < m {
        lemma_fault_stays(state, scope, offered, n, (m - 1) as nat, now);
    }
}

/// Where nothing speaks against the candidates, nothing speaks against any of them.
pub(crate) proof fn lemma_no_fault(
    state: StateView,
    scope: Seq<char>,
    offered: Seq<CandidateView>,
    i: int,
    n: nat,
    now: Timestamp,
)
    requires
        0 <= i < n,
        candidates_fault(state, scope, offered, n, now) is None,
    ensures
        candidate_fault(state, scope, offered, i, now) is None,
    decreases n,
{
    if i < n - 1 {
        lemma_no_fault(state, scope, offered, i, (n - 1) as nat, now);
    }
}

/// Whether no two candidates have the same key.
pub open spec fn distinct_keys(offered: Seq<CandidateView>) -> bool {
    forall|i: int, j: int|
        0 <= i < j < offered.len() ==> #[trigger] offered[i].key() != #[trigger] offered[j].key()
}

pub(crate) proof fn lemma_placed(
    jobs: Map<Seq<char>, RegistrationView>,
    generation: int,
    offered: Seq<CandidateView>,
    n: nat,
    now: Reading,
)
    requires
        n <= offered.len(),
        distinct_keys(offered),
    ensures
        ({
            let after = placed(jobs, generation, offered, n, now);
            &&& generation <= after.1 <= generation + n
            &&& forall|key: Seq<char>|
                (forall|j: int| 0 <= j < n ==> #[trigger] offered[j].key() != key) ==> (
                #[trigger] after.0.contains_key(key) == jobs.contains_key(key)) && (
                jobs.contains_key(key) ==> after.0[key] == jobs[key])
            &&& forall|i: int|
                0 <= i < n ==> after.0.contains_key((#[trigger] offered[i]).key())
                    && after.0[offered[i].key()].job == offered[i].job
            &&& forall|i: int|
                0 <= i < n && unchanged(jobs, (#[trigger] offered[i]).job)
                    ==> after.0[offered[i].key()] == jobs[offered[i].key()]
            &&& forall|i: int|
                0 <= i < n && !unchanged(jobs, (#[trigger] offered[i]).job) && after.1 <= u64::MAX
                    ==> after.0[offered[i].key()].generation > generation
                    && after.0[offered[i].key()].timing == first_timing(
                    offered[i].job.definition.schedule,
                    now,
                )
        }),
    decreases n,
{
    if n > 0 {
        let m = (n - 1) as nat;
        lemma_placed(jobs, generation, offered, m, now);
        let before = placed(jobs, generation, offered, m, now);
        let after = placed(jobs, generation, offered, n, now);
        let last = offered[n - 1].key();
        assert(forall|j: int| 0 <= j < m ==> #[trigger] offered[j].key() != last);
        assert(before.0.contains_key(last) == jobs.contains_key(last));
        assert forall|i: int| 0 <= i < m implies after.0.contains_key(
            (#[trigger] offered[i]).key(),
        ) && after.0[offered[i].key()] == before.0[offered[i].key()] by {
            assert(offered[i].key() != last);
        }
        assert forall|key: Seq<char>|
            (forall|j: int| 0 <= j < n ==> #[trigger] offered[j].key() != key) implies (
        #[trigger] after.0.contains_key(key) == jobs.contains_key(key)) && (jobs.contains_key(key)
            ==> after.0[key] == jobs[key]) by {
            assert(offered[n - 1].key() != key);
            assert(before.0.contains_key(key) == jobs.contains_key(key));
        }
    }
}

pub(crate) proof fn lemma_valid_keys(
    state: StateView,
    scope: Seq<char>,
    offered: Seq<CandidateView>,
    now: Timestamp,
)
    requires
        candidates_fault(state, scope, offered, offered.len(), now) is None,
    ensures
        distinct_keys(offered),
        forall|i: int|
            0 <= i < offered.len() ==> (#[trigger] offered[i]).job.definition.scope == scope && (
            state.jobs.contains_key(offered[i].key()) ==> state.jobs[offered[i].key()].job.definition.scope
                == scope),
{
    assert forall|i: int, j: int| 0 <= i < j < offered.len() implies #[trigger] offered[i].key()
        != #[trigger] offered[j].key() by {
        lemma_no_fault(state, scope, offered, j, offered.len(), now);
        if offered[i].key() == offered[j].key() {
            assert(repeats_key(offered, j));
        }
    }
    assert forall|i: int| 0 <= i < offered.len() implies (
    #[trigger] offered[i]).job.definition.scope == scope && (state.jobs.contains_key(
        offered[i].key(),
    ) ==> state.jobs[offered[i].key()].job.definition.scope == scope) by {
        lemma_no_fault(state, scope, offered, i, offered.len(), now);
    }
}

/// A snapshot with an old revision, or one that comes during shutdown, changes nothing.
pub proof fn stale_snapshot_changes_nothing(
    state: StateView,
    scope: Seq<char>,
    revision: u64,
    offered: Seq<CandidateView>,
    now: Reading,
)
    requires
        state.shutting_down || state.scopes.contains_key(scope) && revision
            < state.scopes[scope].source_revision,
    ensures
        reconciled(state, scope, revision, offered, now).0 == state,
        reconciled(state, scope, revision, offered, now).1 is Err,
        !state.shutting_down ==> reconciled(state, scope, revision, offered, now).1 == Err::<
            (),
            ErrorView,
        >(ErrorView::StaleRevision),
{
}

/// A refused snapshot is atomic: no registration, generation or active run changes, nor what is
/// known of other scopes, nor the revision that its scope last applied.
pub proof fn refused_snapshot_is_atomic(
    state: StateView,
    scope: Seq<char>,
    revision: u64,
    offered: Seq<CandidateView>,
    now: Reading,
    other: Seq<char>,
)
    requires
        reconciled(state, scope, revision, offered, now).1 is Err,
    ensures
        ({
            let after = reconciled(state, scope, revision, offered, now).0;
            &&& after.jobs == state.jobs
            &&& after.generation == state.generation
            &&& after.active == state.active
            &&& after.faults == state.faults
            &&& scope_of(after, scope).applied_revision == scope_of(state, scope).applied_revision
            &&& other != scope ==> scope_of(after, other) == scope_of(state, other)
        }),
{
}

/// No snapshot of a scope changes or removes a registration of another scope, or adds one.
pub proof fn other_scopes_are_untouched(
    state: StateView,
    scope: Seq<char>,
    revision: u64,
    offered: Seq<CandidateView>,
    now: Reading,
    key: Seq<char>,
)
    ensures
        ({
            let after = reconciled(state, scope, revision, offered, now).0;
            &&& state.jobs.contains_key(key) && state.jobs[key].job.definition.scope != scope ==> (
            after.jobs.contains_key(key) && after.jobs[key] == state.jobs[key])
            &&& after.jobs.contains_key(key) && after.jobs[key].job.definition.scope != scope ==> (
            state.jobs.contains_key(key) && after.jobs[key] == state.jobs[key])
        }),
{
    if reconciled(state, scope, revision, offered, now).1 is Ok {
        lemma_valid_keys(state, scope, offered, now.wall);
        let base = kept(state.jobs, scope, offered);
        lemma_placed(base, state.generation as int, offered, offered.len(), now);
        if forall|j: int| 0 <= j < offered.len() ==> #[trigger] offered[j].key() != key {
            assert(placed(base, state.generation as int, offered, offered.len(), now).0.contains_key(
                key,
            ) == base.contains_key(key));
        } else {
            let j = choose|j: int| 0 <= j < offered.len() && #[trigger] offered[j].key() == key;
            assert(offered[j].job.definition.scope == scope);
        }
    }
}

/// After a snapshot was applied, its scope has exactly the offered jobs registered.
pub proof fn applied_snapshot_is_registered(
    state: StateView,
    scope: Seq<char>,
    revision: u64,
    offered: Seq<CandidateView>,
    now: Reading,
)
    requires
        registrations_fit(state.jobs),
        reconciled(state, scope, revision, offered, now).1 is Ok,
    ensures
        ({
            let after = reconciled(state, scope, revision, offered, now).0;
            &&& same_contents(after, scope, offered)
            &&& after.scopes[scope].applied_revision == Some(revision)
            &&& after.active == state.active
        }),
{
    lemma_valid_keys(state, scope, offered, now.wall);
    let base = kept(state.jobs, scope, offered);
    let after = reconciled(state, scope, revision, offered, now).0;
    lemma_placed(base, state.generation as int, offered, offered.len(), now);
    assert forall|key: Seq<char>| #[trigger]
        after.jobs.contains_key(key) && after.jobs[key].job.definition.scope
            == scope implies offers(offered, key) by {
        if !offers(offered, key) {
            assert(forall|j: int| 0 <= j < offered.len() ==> #[trigger] offered[j].key() != key);
            assert(base.contains_key(key));
        }
    }
}

/// A job offered again as it is keeps its registration: its generation, its anchor and its next
/// deadline.
pub proof fn unchanged_job_keeps_its_anchor(
    state: StateView,
    scope: Seq<char>,
    revision: u64,
    offered: Seq<CandidateView>,
    now: Reading,
    i: int,
)
    requires
        0 <= i < offered.len(),
        unchanged(state.jobs, offered[i].job),
        reconciled(state, scope, revision, offered, now).1 is Ok,
    ensures
        reconciled(state, scope, revision, offered, now).0.jobs[offered[i].key()]
            == state.jobs[offered[i].key()],
{
    lemma_valid_keys(state, scope, offered, now.wall);
    let base = kept(state.jobs, scope, offered);
    lemma_placed(base, state.generation as int, offered, offered.len(), now);
    assert(offers(offered, offered[i].key()));
    assert(unchanged(base, offered[i].job));
}

/// A new or changed job gets a generation above every registration before, and a first deadline:
/// what was due under an earlier definition is not due under it.
pub proof fn changed_job_is_fenced(
    state: StateView,
    scope: Seq<char>,
    revision: u64,
    offered: Seq<CandidateView>,
    now: Reading,
    i: int,
)
    requires
        0 <= i < offered.len(),
        !unchanged(state.jobs, offered[i].job),
        reconciled(state, scope, revision, offered, now).1 is Ok,
        state.generations_bounded(),
        state.generation + offered.len() <= u64::MAX,
    ensures
        ({
            let after = reconciled(state, scope, revision, offered, now).0;
            &&& after.jobs[offered[i].key()].job == offered[i].job
            &&& forall|key: Seq<char>| #[trigger]
                state.jobs.contains_key(key) ==> after.jobs[offered[i].key()].generation
                    > state.jobs[key].generation
            &&& after.jobs[offered[i].key()].timing == first_timing(
                offered[i].job.definition.schedule,
                now,
            )
        }),
{
    lemma_valid_keys(state, scope, offered, now.wall);
    let base = kept(state.jobs, scope, offered);
    lemma_placed(base, state.generation as int, offered, offered.len(), now);
    assert(offers(offered, offered[i].key()));
    assert(!unchanged(base, offered[i].job));
}

/// A snapshot gives no registration a generation above the service's, which does not fall.
pub proof fn generations_stay_bounded(
    state: StateView,
    scope: Seq<char>,
    revision: u64,
    offered: Seq<CandidateView>,
    now: Reading,
)
    requires
        state.generations_bounded(),
        state.generation + offered.len() <= u64::MAX,
    ensures
        reconciled(state, scope, revision, offered, now).0.generations_bounded(),
        reconciled(state, scope, revision, offered, now).0.generation >= state.generation,
{
    if reconciled(state, scope, revision, offered, now).1 is Ok {
        let base = kept(state.jobs, scope, offered);
        lemma_generations(base, state.generation as int, offered, offered.len(), now);
    }
}

proof fn lemma_generations(
    jobs: Map<Seq<char>, RegistrationView>,
    generation: int,
    offered: Seq<CandidateView>,
    n: nat,
    now: Reading,
)
    requires
        generation + n <= u64::MAX,
        0 <= generation,
        forall|key: Seq<char>| #[trigger]
            jobs.contains_key(key) ==> jobs[key].generation <= generation,
    ensures
        ({
            let after = placed(jobs, generation, offered, n, now);
            &&& generation <= after.1 <= generation + n
            &&& forall|key: Seq<char>| #[trigger]
                after.0.contains_key(key) ==> after.0[key].generation <= after.1
        }),
    decreases n,
{
    if n > 0 {
        lemma_generations(jobs, generation, offered, (n - 1) as nat, now);
    }
}

/// A revision that a scope applied cannot change the registrations when it comes again.
pub proof fn repeated_revision_changes_nothing(
    state: StateView,
    scope: Seq<char>,
    revision: u64,
    offered: Seq<CandidateView>,
    now: Reading,
)
    requires
        state.scopes.contains_key(scope),
        state.scopes[scope].applied_revision == Some(revision),
    ensures
        reconciled(state, scope, revision, offered, now).0.jobs == state.jobs,
{
    if reconciled(state, scope, revision, offered, now).1 is Ok {
        lemma_valid_keys(state, scope, offered, now.wall);
        let base = kept(state.jobs, scope, offered);
        assert(base =~= state.jobs);
        lemma_placed(base, state.generation as int, offered, offered.len(), now);
        let after = reconciled(state, scope, revision, offered, now).0;
        assert forall|key: Seq<char>| #[trigger]
            after.jobs.contains_key(key) == state.jobs.contains_key(key) && (
        state.jobs.contains_key(key) ==> after.jobs[key] == state.jobs[key]) by {
            if offers(offered, key) {
                let j = choose|j: int| 0 <= j < offered.len() && #[trigger] offered[j].key() == key;
                assert(unchanged(base, offered[j].job));
            } else {
                assert(forall|j: int| 0 <= j < offered.len() ==> #[trigger] offered[j].key() != key);
            }
        }
        assert(after.jobs =~= state.jobs);
    }
}

proof fn lemma_unasked(
    state: StateView,
    scope: Seq<char>,
    revision: u64,
    a: Seq<CandidateView>,
    b: Seq<CandidateView>,
    n: nat,
    now: Timestamp,
)
    requires
        n <= a.len(),
        a.len() == b.len(),
        revision_fault(state, scope, revision) is None,
        forall|i: int| 0 <= i < a.len() ==> (#[trigger] a[i]).job == b[i].job,
        forall|i: int|
            0 <= i < a.len() && asks_about(state, scope, revision, a, i, now) ==> #[trigger] a[i]
                == b[i],
    ensures
        candidates_fault(state, scope, a, n, now) == candidates_fault(state, scope, b, n, now),
        candidates_fault(state, scope, a, n, now) is None ==> forall|i: int|
            0 <= i < n ==> #[trigger] a[i] == b[i],
    decreases n,
{
    if n > 0 {
        let m = n - 1;
        lemma_unasked(state, scope, revision, a, b, m as nat, now);
        assert(a[m].job == b[m].job);
        if repeats_key(a, m) {
            let j = choose|j: int| 0 <= j < m && #[trigger] a[j].key() == a[m].key();
            assert(a[j].job == b[j].job);
            assert(b[j].key() == b[m].key());
        }
        if repeats_key(b, m) {
            let j = choose|j: int| 0 <= j < m && #[trigger] b[j].key() == b[m].key();
            assert(a[j].job == b[j].job);
            assert(a[j].key() == a[m].key());
        }
        if asks_about(state, scope, revision, a, m, now) {
            assert(a[m] == b[m]);
        }
    }
}

/// What a decoder would say that is not asked does not matter: snapshots with the same jobs and the
/// same words of the decoders that are asked lead to the same.
pub proof fn unasked_decoders_do_not_matter(
    state: StateView,
    scope: Seq<char>,
    revision: u64,
    a: Seq<CandidateView>,
    b: Seq<CandidateView>,
    now: Reading,
)
    requires
        a.len() == b.len(),
        forall|i: int| 0 <= i < a.len() ==> (#[trigger] a[i]).job == b[i].job,
        forall|i: int|
            0 <= i < a.len() && asks_about(state, scope, revision, a, i, now.wall) ==> #[trigger]
                a[i] == b[i],
    ensures
        reconciled(state, scope, revision, a, now) == reconciled(state, scope, revision, b, now),
{
    if revision_fault(state, scope, revision) is None {
        lemma_unasked(state, scope, revision, a, b, a.len(), now.wall);
        if candidates_fault(state, scope, a, a.len(), now.wall) is None {
            assert(a =~= b);
        }
    }
}

} // verus!
