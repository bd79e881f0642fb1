//! Inspection: what a service shows of itself.

use vstd::prelude::*;
use crate::ids::RunId;
use crate::job::{DefinitionView, JobDefinition};
use crate::model::{record_views, RunRecord, RunRecordView};
use crate::sorted::{in_order, SortedMap};
use crate::state::{ActiveView, ScopeSnapshot, State, StateView};
use crate::text::same_text;
use crate::time::Timestamp;

verus! {

/// A registered job as inspection shows it.
#[derive(Debug)]
pub struct JobSnapshot {
    pub definition: JobDefinition,
    pub generation: u64,
    pub next_run_at: Option<Timestamp>,
    pub active_runs: Vec<RunId>,
}

pub struct JobSnapshotView {
    pub definition: DefinitionView,
    pub generation: u64,
    pub next_run_at: Option<Timestamp>,
    pub active_runs: Seq<u128>,
}

/// The contents of a list of identifiers.
pub open spec fn id_views(ids: Seq<RunId>) -> Seq<u128> {
    ids.map_values(|id: RunId| id@)
}

impl View for JobSnapshot {
    type V = JobSnapshotView;

    open spec fn view(&self) -> JobSnapshotView {
        JobSnapshotView {
            definition: self.definition@,
            generation: self.generation,
            next_run_at: self.next_run_at,
            active_runs: id_views(self.active_runs@),
        }
    }
}

/// What a service shows of itself.
#[derive(Debug)]
pub struct Inspection {
    pub jobs: Vec<JobSnapshot>,
    pub scopes: SortedMap<String, ScopeSnapshot>,
    pub active: Vec<RunRecord>,
    pub execution_uncertain: Vec<RunId>,
    pub journal_degraded: bool,
    pub shutting_down: bool,
    pub dropped_trigger_count: u64,
    pub missed_trigger_count: u64,
}

/// The active runs that satisfy a condition, in the order of their identifiers.
pub open spec fn runs_where(
    active: Map<u128, ActiveView>,
    condition: spec_fn(ActiveView) -> bool,
) -> Seq<u128> {
    in_order::<RunId>(active.dom()).filter(|id: u128| condition(active[id]))
}

/// A job as inspection shows it.
pub open spec fn job_shown(state: StateView, key: Seq<char>) -> JobSnapshotView {
    JobSnapshotView {
        definition: state.jobs[key].job.definition,
        generation: state.jobs[key].generation,
        next_run_at: state.jobs[key].timing.next,
        active_runs: runs_where(
            state.active,
            |run: ActiveView| run.record.job == state.jobs[key].job.definition.key,
        ),
    }
}

/// The registered jobs as inspection shows them, in the order of their keys.
pub open spec fn jobs_shown(state: StateView) -> Seq<JobSnapshotView> {
    in_order::<String>(state.jobs.dom()).map_values(|key: Seq<char>| job_shown(state, key))
}

/// The records of the active runs, in the order of their identifiers.
pub open spec fn active_shown(state: StateView) -> Seq<RunRecordView> {
    in_order::<RunId>(state.active.dom()).map_values(|id: u128| state.active[id].record)
}

/// Whether an inspection shows a state.
pub open spec fn shows(inspection: Inspection, state: StateView) -> bool {
    &&& inspection.jobs@.map_values(|job: JobSnapshot| job@) == jobs_shown(state)
    &&& inspection.scopes.wf()
    &&& inspection.scopes@ == state.scopes
    &&& record_views(inspection.active@) == active_shown(state)
    &&& id_views(inspection.execution_uncertain@) == runs_where(
        state.active,
        |run: ActiveView| run.uncertain,
    )
    &&& inspection.journal_degraded == (state.faults != Set::<u128>::empty())
    &&& inspection.shutting_down == state.shutting_down
    &&& inspection.dropped_trigger_count == state.dropped
    &&& inspection.missed_trigger_count == state.missed
}

impl State {
    /// The active runs of a job.
    fn runs_of(&self, key: &str) -> (ids: Vec<RunId>)
        requires
            self.wf(),
        ensures
            id_views(ids@) == runs_where(
                self@.active,
                |run: ActiveView| run.record.job == key@,
            ),
    {
        let ghost keys = self.active.keys();
        let ghost condition = |run: ActiveView| run.record.job == key@;
        let ghost chosen = |id: u128| condition(self@.active[id]);
        let mut ids: Vec<RunId> = Vec::new();
        let mut i: usize = 0;
        proof {
            self.active.lemma_keys();
            lemma_filter_start(keys, chosen);
            assert(id_views(ids@) =~= keys.take(0).filter(chosen));
        }
        while i < self.active.items.len()
            invariant
                self.wf(),
                keys == self.active.keys(),
                i <= self.active.items@.len(),
                condition == |run: ActiveView| run.record.job == key@,
                chosen == |id: u128| condition(self@.active[id]),
                id_views(ids@) == keys.take(i as int).filter(chosen),
            decreases self.active.items@.len() - i,
        {
            proof {
                self.active.lemma_keys();
                lemma_filter_step(keys, chosen, i as int);
                assert(self@.active[keys[i as int]] == self.active.items@[i as int].1@);
            }
            if same_text(self.active.items[i].1.record.job.as_str(), key) {
                let ghost listed = id_views(ids@);
                let id = self.active.items[i].0;
                ids.push(id);
                assert(id_views(ids@) =~= listed.push(id@));
            }
            i = i + 1;
        }
        proof {
            self.active.lemma_keys();
            assert(keys.take(i as int) =~= keys);
        }
        ids
    }

    /// The active runs whose handlers panicked while delegated work may go on.
    fn uncertain_runs(&self) -> (ids: Vec<RunId>)
        requires
            self.wf(),
        ensures
            id_views(ids@) == runs_where(self@.active, |run: ActiveView| run.uncertain),
    {
        let ghost keys = self.active.keys();
        let ghost condition = |run: ActiveView| run.uncertain;
        let ghost chosen = |id: u128| condition(self@.active[id]);
        let mut ids: Vec<RunId> = Vec::new();
        let mut i: usize = 0;
        proof {
            self.active.lemma_keys();
            lemma_filter_start(keys, chosen);
            assert(id_views(ids@) =~= keys.take(0).filter(chosen));
        }
        while i < self.active.items.len()
            invariant
                self.wf(),
                keys == self.active.keys(),
                i <= self.active.items@.len(),
                condition == |run: ActiveView| run.uncertain,
                chosen == |id: u128| condition(self@.active[id]),
                id_views(ids@) == keys.take(i as int).filter(chosen),
            decreases self.active.items@.len() - i,
        {
            proof {
                self.active.lemma_keys();
                lemma_filter_step(keys, chosen, i as int);
                assert(self@.active[keys[i as int]] == self.active.items@[i as int].1@);
            }
            if self.active.items[i].1.uncertain {
                let ghost listed = id_views(ids@);
                let id = self.active.items[i].0;
                ids.push(id);
                assert(id_views(ids@) =~= listed.push(id@));
            }
            i = i + 1;
        }
        proof {
            self.active.lemma_keys();
            assert(keys.take(i as int) =~= keys);
        }
        ids
    }

    /// A copy of what is known of the scopes.
    fn copy_scopes(&self) -> (scopes: SortedMap<String, ScopeSnapshot>)
        requires
            self.wf(),
        ensures
            scopes.wf(),
            scopes@ == self@.scopes,
    {
        let mut items: Vec<(String, ScopeSnapshot)> = Vec::new();
        let mut i: usize = 0;
        while i < self.scopes.items.len()
            invariant
                i <= self.scopes.items@.len(),
                items@.len() == i,
                forall|j: int|
                    0 <= j < i ==> (#[trigger] items@[j]).0@ == self.scopes.items@[j].0@
                        && items@[j].1@ == self.scopes.items@[j].1@,
            decreases self.scopes.items@.len() - i,
        {
            let name = self.scopes.items[i].0.clone();
            let snapshot = self.scopes.items[i].1.clone();
            items.push((name, snapshot));
            i = i + 1;
        }
        let scopes = SortedMap { items };
        proof {
            assert forall|j: int| 0 <= j < scopes.items@.len() implies #[trigger] scopes.key_at(j)
                == self.scopes.key_at(j) && scopes.items@[j].1@ == self.scopes.items@[j].1@ by {
                assert(items@[j].0@ == self.scopes.items@[j].0@);
            }
            scopes.lemma_same(&self.scopes);
        }
        scopes
    }

    /// Shows the state.
    pub fn inspect(&self) -> (inspection: Inspection)
        requires
            self.wf(),
        ensures
            shows(inspection, self@),
    {
        let mut jobs: Vec<JobSnapshot> = Vec::new();
        let mut i: usize = 0;
        while i < self.jobs.items.len()
            invariant
                self.wf(),
                i <= self.jobs.items@.len(),
                jobs@.len() == i,
                forall|j: int|
                    0 <= j < i ==> (#[trigger] jobs@[j])@ == job_shown(self@, self.jobs.key_at(j)),
            decreases self.jobs.items@.len() - i,
        {
            proof {
                self.jobs.lemma_entry(i as int);
            }
            let registration = &self.jobs.items[i].1;
            let runs = self.runs_of(registration.job.definition.key.as_str());
            let snapshot = JobSnapshot {
                definition: registration.job.definition.clone(),
                generation: registration.generation,
                next_run_at: registration.timing.next,
                active_runs: runs,
            };
            jobs.push(snapshot);
            i = i + 1;
        }
        let mut active: Vec<RunRecord> = Vec::new();
        let mut k: usize = 0;
        while k < self.active.items.len()
            invariant
                self.wf(),
                k <= self.active.items@.len(),
                active@.len() == k,
                forall|j: int|
                    0 <= j < k ==> (#[trigger] active@[j])@ == self.active.items@[j].1.record@,
            decreases self.active.items@.len() - k,
        {
            let record = self.active.items[k].1.record.clone();
            active.push(record);
            k = k + 1;
        }
        proof {
            self.jobs.lemma_keys();
            self.active.lemma_keys();
            self.faults.lemma_len();
            assert(jobs@.map_values(|job: JobSnapshot| job@) =~= jobs_shown(self@));
            assert(record_views(active@) =~= active_shown(self@));
            if self.faults.items@.len() == 0 {
                assert(self@.faults =~= Set::<u128>::empty());
            }
        }
        let degraded = self.faults.items.len() > 0;
        Inspection {
            jobs,
            scopes: self.copy_scopes(),
            active,
            execution_uncertain: self.uncertain_runs(),
            journal_degraded: degraded,
            shutting_down: self.shutting_down,
            dropped_trigger_count: self.dropped,
            missed_trigger_count: self.missed,
        }
    }
}

/// Nothing is chosen from nothing.
pub(crate) proof fn lemma_filter_start(keys: Seq<u128>, chosen: spec_fn(u128) -> bool)
    ensures
        keys.take(0).filter(chosen) == Seq::<u128>::empty(),
{
    reveal(Seq::filter);
    assert(keys.take(0) =~= Seq::<u128>::empty());
}

/// What is chosen from one more key.
pub(crate) proof fn lemma_filter_step(keys: Seq<u128>, chosen: spec_fn(u128) -> bool, i: int)
    requires
        0 <= i < keys.len(),
    ensures
        keys.take(i + 1).filter(chosen) == if chosen(keys[i]) {
            keys.take(i).filter(chosen).push(keys[i])
        } else {
            keys.take(i).filter(chosen)
        },
{
    reveal(Seq::filter);
    assert(keys.take(i + 1).drop_last() =~= keys.take(i));
    assert(keys.take(i + 1).last() == keys[i]);
}

} // verus!
