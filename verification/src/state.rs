//! The state that owns registrations, admission and active runs.

use vstd::prelude::*;
use crate::ids::RunId;
use crate::job::{identity_fits, Job, JobView};
use crate::model::{Cancellation, Limits, RunRecord, RunRecordView};
use crate::schedule::{timing_fits, Timing};
use crate::sorted::{Present, SortedMap};
use crate::time::Moment;

verus! {

/// What is known of a scope.
#[derive(Debug)]
pub struct ScopeSnapshot {
    pub source_revision: u64,
    pub applied_revision: Option<u64>,
    pub last_error: Option<String>,
}

pub struct ScopeView {
    pub source_revision: u64,
    pub applied_revision: Option<u64>,
    pub last_error: Option<Seq<char>>,
}

/// The contents of an optional text.
pub open spec fn text_view(text: Option<String>) -> Option<Seq<char>> {
    match text {
        Some(t) => Some(t@),
        None => None,
    }
}

impl View for ScopeSnapshot {
    type V = ScopeView;

    open spec fn view(&self) -> ScopeView {
        ScopeView {
            source_revision: self.source_revision,
            applied_revision: self.applied_revision,
            last_error: text_view(self.last_error),
        }
    }
}

impl Clone for ScopeSnapshot {
    fn clone(&self) -> (copy: Self)
        ensures
            copy@ == self@,
    {
        ScopeSnapshot {
            source_revision: self.source_revision,
            applied_revision: self.applied_revision,
            last_error: match &self.last_error {
                Some(text) => Some(text.clone()),
                None => None,
            },
        }
    }
}

/// The snapshot of a scope that was never reconciled.
pub open spec fn new_scope() -> ScopeView {
    ScopeView { source_revision: 0, applied_revision: None, last_error: None }
}

impl Default for ScopeSnapshot {
    fn default() -> (scope: Self)
        ensures
            scope@ == new_scope(),
    {
        ScopeSnapshot { source_revision: 0, applied_revision: None, last_error: None }
    }
}

/// A registered job.
#[derive(Debug)]
pub struct Registration {
    pub job: Job,
    pub generation: u64,
    pub timing: Timing,
}

pub struct RegistrationView {
    pub job: JobView,
    pub generation: u64,
    pub timing: Timing,
}

impl View for Registration {
    type V = RegistrationView;

    open spec fn view(&self) -> RegistrationView {
        RegistrationView { job: self.job@, generation: self.generation, timing: self.timing }
    }
}

/// A run that holds a permit.
#[derive(Debug)]
pub struct Active {
    pub record: RunRecord,
    pub capability: Cancellation,
    /// Whether cancellation was asked for.
    pub cancelled: bool,
    /// The terminal record that waiters were shown.
    pub published: Option<RunRecord>,
    /// Whether admission is still being written.
    pub admitting: bool,
    /// Whether the handler panicked while delegated work may go on.
    pub uncertain: bool,
    /// Whether the run only records a collision.
    pub skip: bool,
}

pub struct ActiveView {
    pub record: RunRecordView,
    pub capability: Cancellation,
    pub cancelled: bool,
    pub published: Option<RunRecordView>,
    pub admitting: bool,
    pub uncertain: bool,
    pub skip: bool,
}

/// The contents of an optional record.
pub open spec fn record_view(record: Option<RunRecord>) -> Option<RunRecordView> {
    match record {
        Some(r) => Some(r@),
        None => None,
    }
}

impl View for Active {
    type V = ActiveView;

    open spec fn view(&self) -> ActiveView {
        ActiveView {
            record: self.record@,
            capability: self.capability,
            cancelled: self.cancelled,
            published: record_view(self.published),
            admitting: self.admitting,
            uncertain: self.uncertain,
            skip: self.skip,
        }
    }
}

/// Registrations, scopes, active runs and the counters of a service.
pub struct State {
    pub jobs: SortedMap<String, Registration>,
    pub scopes: SortedMap<String, ScopeSnapshot>,
    pub active: SortedMap<RunId, Active>,
    pub generation: u64,
    pub maintaining: bool,
    pub maintenance_due: Moment,
    pub faults: SortedMap<RunId, Present>,
    pub shutting_down: bool,
    pub limits: Limits,
    pub dropped: u64,
    pub missed: u64,
}

pub struct StateView {
    pub jobs: Map<Seq<char>, RegistrationView>,
    pub scopes: Map<Seq<char>, ScopeView>,
    pub active: Map<u128, ActiveView>,
    pub generation: u64,
    pub maintaining: bool,
    pub maintenance_due: Moment,
    pub faults: Set<u128>,
    pub shutting_down: bool,
    pub limits: Limits,
    pub dropped: u64,
    pub missed: u64,
}

impl View for State {
    type V = StateView;

    open spec fn view(&self) -> StateView {
        StateView {
            jobs: self.jobs@,
            scopes: self.scopes@,
            active: self.active@,
            generation: self.generation,
            maintaining: self.maintaining,
            maintenance_due: self.maintenance_due,
            faults: self.faults@.dom(),
            shutting_down: self.shutting_down,
            limits: self.limits,
            dropped: self.dropped,
            missed: self.missed,
        }
    }
}

/// Whether a registration belongs under a key: it is named by it, within bounds, and its timing
/// fits its schedule.
pub open spec fn registered_as(registration: RegistrationView, key: Seq<char>) -> bool {
    &&& registration.job.definition.key == key
    &&& identity_fits(registration.job.definition)
    &&& timing_fits(registration.job.definition.schedule, registration.timing)
}

/// Whether every registration belongs under its key.
pub open spec fn registrations_fit(jobs: Map<Seq<char>, RegistrationView>) -> bool {
    forall|key: Seq<char>| #[trigger] jobs.contains_key(key) ==> registered_as(jobs[key], key)
}

impl StateView {
    /// No registration has a generation above the last one given.
    pub open spec fn generations_bounded(self) -> bool {
        forall|key: Seq<char>| #[trigger]
            self.jobs.contains_key(key) ==> self.jobs[key].generation <= self.generation
    }

    /// Whether some active run is of a job.
    pub open spec fn occupied(self, key: Seq<char>) -> bool {
        exists|id: u128| #[trigger]
            self.active.contains_key(id) && self.active[id].record.job == key
    }

    /// No more runs hold permits than the limit allows.
    pub open spec fn within_capacity(self) -> bool {
        self.active.dom().finite() && self.active.dom().len() <= self.limits.concurrency
    }

    /// No two active runs that execute a handler are of the same job.
    pub open spec fn exclusive(self) -> bool {
        forall|a: u128, b: u128| #[trigger]
            self.active.contains_key(a) && #[trigger] self.active.contains_key(b) && a != b
                && !self.active[a].skip && !self.active[b].skip ==> self.active[a].record.job
                != self.active[b].record.job
    }

    /// Whether nothing is left to wait for.
    pub open spec fn finished(self) -> bool {
        self.shutting_down && self.active.dom() == Set::<u128>::empty() && !self.maintaining
    }
}

impl State {
    pub open spec fn wf(&self) -> bool {
        &&& self.jobs.wf()
        &&& self.scopes.wf()
        &&& self.active.wf()
        &&& self.faults.wf()
        &&& registrations_fit(self.jobs@)
    }
}

/// The state of a service that has just started.
pub open spec fn started_state(limits: Limits, now: Moment) -> StateView {
    StateView {
        jobs: Map::empty(),
        scopes: Map::empty(),
        active: Map::empty(),
        generation: 0,
        maintaining: false,
        maintenance_due: Moment { nanos: (now.nanos + 60_000_000_000) as u128 },
        faults: Set::empty(),
        shutting_down: false,
        limits,
        dropped: 0,
        missed: 0,
    }
}

impl State {
    /// A service with no jobs; the first idle maintenance is due in a minute.
    pub fn new(limits: Limits, now: Moment) -> (state: Self)
        requires
            now.countable(),
        ensures
            state.wf(),
            state@ == started_state(limits, now),
    {
        let state = State {
            jobs: SortedMap::new(),
            scopes: SortedMap::new(),
            active: SortedMap::new(),
            generation: 0,
            maintaining: false,
            maintenance_due: Moment { nanos: now.nanos + 60_000_000_000 },
            faults: SortedMap::new(),
            shutting_down: false,
            limits,
            dropped: 0,
            missed: 0,
        };
        assert(state@.faults =~= Set::<u128>::empty());
        state
    }
}

} // verus!
