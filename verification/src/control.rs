//! Control of active runs: watching, cancelling, progress, and shutting down.

use vstd::prelude::*;
use crate::ids::RunId;
use crate::model::{CancelResult, Cancellation, RunRecord, RunRecordView, RunState, RunStateView};
use crate::sorted::{in_order, Key, Present};
use crate::state::{Active, ActiveView, State, StateView};

verus! {

/// The answer to a cancellation request on an active run.
pub open spec fn cancel_answer(run: ActiveView) -> CancelResult {
    if run.record.terminal() || run.record.state is Finalizing {
        CancelResult::AlreadyFinished
    } else if run.admitting {
        CancelResult::AdmissionPending
    } else if run.capability == Cancellation::Unsupported {
        CancelResult::Unsupported
    } else {
        CancelResult::Requested
    }
}

/// The run after a cancellation that was accepted.
pub open spec fn cancelling(run: ActiveView) -> ActiveView {
    ActiveView {
        cancelled: true,
        record: RunRecordView { state: RunStateView::Cancelling, ..run.record },
        ..run
    }
}

/// The state after a cancellation request.
pub open spec fn with_cancel(state: StateView, id: u128) -> StateView {
    if state.active.contains_key(id) && cancel_answer(state.active[id])
        == CancelResult::Requested {
        StateView { active: state.active.insert(id, cancelling(state.active[id])), ..state }
    } else {
        state
    }
}

/// The state after a shutdown request: cooperative runs are asked to stop.
pub open spec fn with_shutdown(state: StateView) -> StateView {
    StateView {
        shutting_down: true,
        active: state.active.map_values(|run: ActiveView| asked_to_stop(run)),
        ..state
    }
}

/// A run as a shutdown leaves it.
pub open spec fn asked_to_stop(run: ActiveView) -> ActiveView {
    if run.capability == Cancellation::Cooperative {
        ActiveView { cancelled: true, ..run }
    } else {
        run
    }
}

/// The state after a run's admission was confirmed.
pub open spec fn with_started(state: StateView, id: u128, record: RunRecordView) -> StateView {
    if state.active.contains_key(id) {
        StateView {
            active: state.active.insert(
                id,
                ActiveView {
                    record: if state.shutting_down {
                        record
                    } else {
                        RunRecordView { state: RunStateView::Running, ..record }
                    },
                    admitting: false,
                    ..state.active[id]
                },
            ),
            ..state
        }
    } else {
        state
    }
}

/// The state after a run reported a fault of the journal.
pub open spec fn with_fault(state: StateView, id: u128) -> StateView {
    StateView { faults: state.faults.insert(id), ..state }
}

/// The state after a run reported its record: a terminal record is shown to waiters.
pub open spec fn with_progress(
    state: StateView,
    id: u128,
    record: RunRecordView,
    uncertain: bool,
) -> StateView {
    if state.active.contains_key(id) {
        StateView {
            active: state.active.insert(
                id,
                ActiveView {
                    record,
                    uncertain,
                    published: if record.terminal() {
                        Some(record)
                    } else {
                        state.active[id].published
                    },
                    ..state.active[id]
                },
            ),
            ..state
        }
    } else {
        state
    }
}

/// The state after a run ended: its permit and its fault are released.
pub open spec fn with_done(state: StateView, id: u128) -> StateView {
    StateView { active: state.active.remove(id), faults: state.faults.remove(id), ..state }
}

/// The state after idle maintenance ended.
pub open spec fn with_maintenance_done(state: StateView, id: u128) -> StateView {
    StateView { maintaining: false, faults: state.faults.remove(id), ..state }
}

impl State {
    /// The record that waiters of an active run are shown so far.
    pub fn watch(&self, id: RunId) -> (seen: Option<Option<&RunRecord>>)
        requires
            self.wf(),
        ensures
            seen is Some <==> self@.active.contains_key(id@),
            seen matches Some(shown) ==> match shown {
                Some(record) => self@.active[id@].published == Some(record@),
                None => self@.active[id@].published is None,
            },
    {
        match self.active.get(&id) {
            Some(run) => match &run.published {
                Some(record) => Some(Some(record)),
                None => Some(None),
            },
            None => None,
        }
    }

    /// Decides a cancellation request. A run that is asked to stop keeps its permit.
    pub fn cancel(&mut self, id: RunId) -> (answer: Option<CancelResult>)
        requires
            old(self).wf(),
        ensures
            final(self).wf(),
            final(self)@ == with_cancel(old(self)@, id@),
            answer == if old(self)@.active.contains_key(id@) {
                Some(cancel_answer(old(self)@.active[id@]))
            } else {
                None
            },
    {
        match self.active.find(&id) {
            None => None,
            Some(position) => {
                let run = &self.active.items[position].1;
                let finalizing = match run.record.state {
                    RunState::Finalizing => true,
                    RunState::Finished(_) => true,
                    _ => false,
                };
                if finalizing {
                    Some(CancelResult::AlreadyFinished)
                } else if run.admitting {
                    Some(CancelResult::AdmissionPending)
                } else {
                    match run.capability {
                        Cancellation::Unsupported => Some(CancelResult::Unsupported),
                        Cancellation::Cooperative => {
                            let mut record = run.record.clone();
                            record.state = RunState::Cancelling;
                            let published = match &run.published {
                                Some(shown) => Some(shown.clone()),
                                None => None,
                            };
                            let next = Active {
                                record,
                                capability: run.capability,
                                cancelled: true,
                                published,
                                admitting: run.admitting,
                                uncertain: run.uncertain,
                                skip: run.skip,
                            };
                            self.active.set(position, next);
                            Some(CancelResult::Requested)
                        },
                    }
                }
            },
        }
    }

    /// Starts shutting down, and names the runs that are asked to stop, in the order of their
    /// identifiers.
    pub fn shutdown(&mut self) -> (asked: Vec<RunId>)
        requires
            old(self).wf(),
        ensures
            final(self).wf(),
            final(self)@ == with_shutdown(old(self)@),
            asked@.map_values(|id: RunId| id@) == in_order::<RunId>(
                old(self)@.active.dom(),
            ).filter(|id: u128| old(self)@.active[id].capability == Cancellation::Cooperative),
    {
        self.shutting_down = true;
        let mut asked: Vec<RunId> = Vec::new();
        let ghost before = self.active;
        let ghost keys = before.keys();
        let ghost chosen = |id: u128| before@[id].capability == Cancellation::Cooperative;
        let mut i: usize = 0;
        proof {
            before.lemma_keys();
            assert(keys.take(0) =~= Seq::<u128>::empty());
            assert(keys.take(0).filter(chosen) =~= Seq::<u128>::empty()) by {
                reveal(Seq::filter);
            }
        }
        while i < self.active.items.len()
            invariant
                before.wf(),
                self.active.wf(),
                i <= self.active.items@.len(),
                self.active.items@.len() == before.items@.len(),
                keys == before.keys(),
                chosen == |id: u128| before@[id].capability == Cancellation::Cooperative,
                forall|j: int|
                    0 <= j < before.items@.len() ==> (#[trigger] self.active.items@[j]).0
                        == before.items@[j].0,
                forall|j: int|
                    0 <= j < i ==> (#[trigger] self.active.items@[j]).1@ == asked_to_stop(
                        before.items@[j].1@,
                    ),
                forall|j: int|
                    i <= j < before.items@.len() ==> #[trigger] self.active.items@[j]
                        == before.items@[j],
                asked@.map_values(|id: RunId| id@) == keys.take(i as int).filter(chosen),
                self.jobs == old(self).jobs,
                self.scopes == old(self).scopes,
                self.faults == old(self).faults,
                self.generation == old(self).generation,
                self.maintaining == old(self).maintaining,
                self.maintenance_due == old(self).maintenance_due,
                self.shutting_down,
                self.limits == old(self).limits,
                self.dropped == old(self).dropped,
                self.missed == old(self).missed,
            decreases self.active.items@.len() - i,
        {
            proof {
                before.lemma_keys();
                assert(keys.take(i + 1) =~= keys.take(i as int).push(keys[i as int]));
                assert(keys.take(i + 1).drop_last() =~= keys.take(i as int));
                reveal(Seq::filter);
                assert(keys[i as int] == before.items@[i as int].0@);
            }
            match self.active.items[i].1.capability {
                Cancellation::Cooperative => {
                    self.active.items[i].1.cancelled = true;
                    let id = self.active.items[i].0;
                    let ghost listed = asked@;
                    asked.push(id);
                    assert(asked@.map_values(|id: RunId| id@) =~= listed.map_values(
                        |id: RunId| id@,
                    ).push(id@));
                },
                Cancellation::Unsupported => {},
            }
            proof {
                assert forall|a: int, b: int|
                    0 <= a < b < self.active.items@.len() implies RunId::precedes(
                    self.active.key_at(a),
                    self.active.key_at(b),
                ) by {
                    assert(RunId::precedes(before.key_at(a), before.key_at(b)));
                    assert(self.active.items@[a].0 == before.items@[a].0);
                    assert(self.active.items@[b].0 == before.items@[b].0);
                }
            }
            i = i + 1;
        }
        proof {
            assert(keys.take(i as int) =~= keys);
            before.lemma_keys();
            self.active.lemma_keys();
            let expected = before@.map_values(|run: ActiveView| asked_to_stop(run));
            assert(self.active.keys() =~= keys) by {
                assert forall|j: int| 0 <= j < keys.len() implies self.active.keys()[j]
                    == keys[j] by {
                    assert(self.active.items@[j].0 == before.items@[j].0);
                }
            }
            assert forall|id: u128| self.active@.contains_key(id) == before@.contains_key(id) by {
                if self.active@.contains_key(id) {
                    self.active.lemma_key(id);
                    let q = self.active.position(id);
                    assert(self.active.items@[q].0 == before.items@[q].0);
                    before.lemma_entry(q);
                }
                if before@.contains_key(id) {
                    before.lemma_key(id);
                    let q = before.position(id);
                    assert(self.active.items@[q].0 == before.items@[q].0);
                    self.active.lemma_entry(q);
                }
            }
            assert forall|id: u128| self.active@.contains_key(id) implies #[trigger] self.active@[id]
                == expected[id] by {
                self.active.lemma_key(id);
                let q = self.active.position(id);
                assert(self.active.items@[q].0 == before.items@[q].0);
                before.lemma_entry(q);
            }
            assert(self.active@ =~= expected);
        }
        asked
    }

    /// Records that a run's admission was confirmed, and answers whether it may start.
    pub fn started(&mut self, id: RunId, record: RunRecord) -> (start: bool)
        requires
            old(self).wf(),
        ensures
            final(self).wf(),
            final(self)@ == with_started(old(self)@, id@, record@),
            start == !old(self)@.shutting_down,
    {
        let start = !self.shutting_down;
        match self.active.find(&id) {
            None => {},
            Some(position) => {
                let run = &self.active.items[position].1;
                let mut record = record;
                if start {
                    record.state = RunState::Running;
                }
                let published = match &run.published {
                    Some(shown) => Some(shown.clone()),
                    None => None,
                };
                let next = Active {
                    record,
                    capability: run.capability,
                    cancelled: run.cancelled,
                    published,
                    admitting: false,
                    uncertain: run.uncertain,
                    skip: run.skip,
                };
                self.active.set(position, next);
            },
        }
        start
    }

    /// Records that a run or the maintenance met a fault of the journal.
    pub fn fault(&mut self, id: RunId)
        requires
            old(self).wf(),
        ensures
            final(self).wf(),
            final(self)@ == with_fault(old(self)@, id@),
    {
        self.faults.insert(id, Present);
        assert(self@.faults =~= old(self)@.faults.insert(id@));
    }

    /// Records the record that a run reported.
    pub fn progress(&mut self, id: RunId, record: RunRecord, uncertain: bool)
        requires
            old(self).wf(),
        ensures
            final(self).wf(),
            final(self)@ == with_progress(old(self)@, id@, record@, uncertain),
    {
        match self.active.find(&id) {
            None => {},
            Some(position) => {
                let run = &self.active.items[position].1;
                let published = match record.completion() {
                    Some(_) => Some(record.clone()),
                    None => match &run.published {
                        Some(shown) => Some(shown.clone()),
                        None => None,
                    },
                };
                let next = Active {
                    record,
                    capability: run.capability,
                    cancelled: run.cancelled,
                    published,
                    admitting: run.admitting,
                    uncertain,
                    skip: run.skip,
                };
                self.active.set(position, next);
            },
        }
    }

    /// Releases the permit and the fault of a run that ended.
    pub fn done(&mut self, id: RunId)
        requires
            old(self).wf(),
        ensures
            final(self).wf(),
            final(self)@ == with_done(old(self)@, id@),
    {
        let _ = self.active.remove(&id);
        let _ = self.faults.remove(&id);
        assert(self@.faults =~= old(self)@.faults.remove(id@));
    }

    /// Records that idle maintenance ended.
    pub fn maintenance_done(&mut self, id: RunId)
        requires
            old(self).wf(),
        ensures
            final(self).wf(),
            final(self)@ == with_maintenance_done(old(self)@, id@),
    {
        self.maintaining = false;
        let _ = self.faults.remove(&id);
        assert(self@.faults =~= old(self)@.faults.remove(id@));
    }

    /// Whether the service can stop: it is shutting down and nothing is left to wait for.
    pub fn stopped(&self) -> (stopped: bool)
        requires
            self.wf(),
        ensures
            stopped == self@.finished(),
    {
        proof {
            self.active.lemma_len();
            assert(self.active.items@.len() == 0 <==> self@.active.dom() == Set::<u128>::empty()) by {
                if self.active.items@.len() == 0 {
                    assert(self@.active.dom() =~= Set::<u128>::empty());
                }
            }
        }
        self.shutting_down && self.active.items.len() == 0 && !self.maintaining
    }
}

} // verus!
