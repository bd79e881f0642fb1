//! What an inspection shows of a service.

use vstd::prelude::*;
use crate::ids::RunId;
use crate::inspect::{id_views, job_shown, runs_where, shows, Inspection, JobSnapshot};
use crate::laws::requests::lemma_filter;
use crate::model::record_views;
use crate::sorted::Key;
use crate::state::{ActiveView, State, StateView};

verus! {

/// An inspection shows every counter, every scope and whether the journal is degraded and the
/// service shuts down, as they are: the journal is degraded while some fault is open.
pub proof fn inspection_shows_the_service(inspection: Inspection, state: StateView)
    requires
        shows(inspection, state),
    ensures
        inspection.scopes@ == state.scopes,
        inspection.shutting_down == state.shutting_down,
        inspection.dropped_trigger_count == state.dropped,
        inspection.missed_trigger_count == state.missed,
        inspection.journal_degraded <==> exists|id: u128| state.faults.contains(id),
{
    if inspection.journal_degraded {
        if forall|id: u128| !state.faults.contains(id) {
            assert(state.faults =~= Set::<u128>::empty());
        }
    } else {
        assert(state.faults =~= Set::<u128>::empty());
    }
}

/// The active runs that satisfy a condition are listed in the order of their identifiers, each
/// once, and no others are.
proof fn lemma_runs_where(state: State, condition: spec_fn(ActiveView) -> bool)
    requires
        state.wf(),
    ensures
        ({
            let listed = runs_where(state@.active, condition);
            &&& forall|id: u128| #[trigger]
                listed.contains(id) <==> state@.active.contains_key(id) && condition(
                    state@.active[id],
                )
            &&& forall|i: int, j: int| 0 <= i < j < listed.len() ==> listed[i] < listed[j]
        }),
{
    let keys = state.active.keys();
    state.active.lemma_keys();
    let chosen = |id: u128| condition(state@.active[id]);
    lemma_filter(keys, chosen);
    assert forall|a: int, b: int| 0 <= a < b < keys.len() implies keys[a] < keys[b] by {
        assert(RunId::precedes(state.active.key_at(a), state.active.key_at(b)));
    }
    let listed = runs_where(state@.active, condition);
    assert(listed == keys.filter(chosen));
    assert forall|id: u128| #[trigger] listed.contains(id) <==> state@.active.contains_key(id)
        && condition(state@.active[id]) by {
        if state@.active.contains_key(id) {
            state.active.lemma_key(id);
            assert(keys[state.active.position(id)] == id);
            assert(keys.contains(id));
        }
        if keys.contains(id) {
            let p = choose|p: int| 0 <= p < keys.len() && keys[p] == id;
            assert(state@.active.contains_key(keys[p]));
        }
    }
}

/// An inspection lists the records of the active runs, in the order of their identifiers, and
/// marks exactly those whose execution is uncertain.
pub proof fn inspection_lists_active_runs(
    inspection: Inspection,
    state: State,
    id: RunId,
    i: int,
    j: int,
)
    requires
        state.wf(),
        shows(inspection, state@),
    ensures
        inspection.active@.len() == state@.active.dom().len(),
        state@.active.contains_key(id@) <==> exists|k: int|
            0 <= k < inspection.active@.len() && (#[trigger] record_views(inspection.active@)[k])
                == state@.active[id@].record && state.active.keys()[k] == id@,
        0 <= i < j < inspection.active@.len() ==> state.active.keys()[i] < state.active.keys()[j],
        0 <= i < inspection.active@.len() ==> state@.active.contains_key(state.active.keys()[i])
            && inspection.active@[i]@ == state@.active[state.active.keys()[i]].record,
        inspection.execution_uncertain@.contains(id) <==> state@.active.contains_key(id@)
            && state@.active[id@].uncertain,
        0 <= i < j < inspection.execution_uncertain@.len() ==> inspection.execution_uncertain@[i]@
            < inspection.execution_uncertain@[j]@,
{
    let keys = state.active.keys();
    state.active.lemma_keys();
    state.active.lemma_len();
    let records = record_views(inspection.active@);
    assert(records.len() == keys.len());
    assert forall|k: int| 0 <= k < keys.len() implies #[trigger] records[k]
        == state@.active[keys[k]].record && inspection.active@[k]@ == records[k] by {}
    if state@.active.contains_key(id@) {
        state.active.lemma_key(id@);
        let k = state.active.position(id@);
        assert(keys[k] == id@);
        assert(records[k] == state@.active[id@].record);
    }
    if 0 <= i < j < inspection.active@.len() {
        assert(RunId::precedes(state.active.key_at(i), state.active.key_at(j)));
    }
    if 0 <= i < inspection.active@.len() {
        assert(records[i] == inspection.active@[i]@);
        assert(state@.active.contains_key(keys[i]));
    }
    let uncertain = |run: ActiveView| run.uncertain;
    lemma_runs_where(state, uncertain);
    lemma_ids(inspection.execution_uncertain@, id);
    let marked = id_views(inspection.execution_uncertain@);
    assert(marked == runs_where(state@.active, uncertain));
    if 0 <= i < j < inspection.execution_uncertain@.len() {
        assert(marked[i] < marked[j]);
        assert(marked[i] == inspection.execution_uncertain@[i]@);
        assert(marked[j] == inspection.execution_uncertain@[j]@);
    }
}

/// A list of identifiers has one exactly if the list of their numbers has its number.
proof fn lemma_ids(ids: Seq<RunId>, id: RunId)
    ensures
        ids.contains(id) <==> id_views(ids).contains(id@),
{
    if ids.contains(id) {
        let p = choose|p: int| 0 <= p < ids.len() && ids[p] == id;
        assert(id_views(ids)[p] == id@);
    }
    if id_views(ids).contains(id@) {
        let p = choose|p: int| 0 <= p < id_views(ids).len() && id_views(ids)[p] == id@;
        assert(ids[p]@ == id@);
        assert(ids[p] == id);
    }
}

/// An inspection lists every registered job once, in the order of their keys, with its definition,
/// its generation, the instant it waits for, and exactly the active runs of its key.
pub proof fn inspection_lists_jobs(inspection: Inspection, state: State, i: int, id: RunId)
    requires
        state.wf(),
        shows(inspection, state@),
    ensures
        inspection.jobs@.len() == state@.jobs.dom().len(),
        inspection.jobs@.len() == state.jobs.keys().len(),
        0 <= i < inspection.jobs@.len() ==> {
            let shown = inspection.jobs@[i];
            let key = state.jobs.keys()[i];
            &&& state@.jobs.contains_key(key)
            &&& shown.definition.key@ == key
            &&& shown.definition@ == state@.jobs[key].job.definition
            &&& shown.generation == state@.jobs[key].generation
            &&& shown.next_run_at == state@.jobs[key].timing.next
            &&& shown.active_runs@.contains(id) <==> state@.active.contains_key(id@)
                && state@.active[id@].record.job == key
        },
{
    let keys = state.jobs.keys();
    state.jobs.lemma_keys();
    state.jobs.lemma_len();
    let shown = inspection.jobs@.map_values(|job: JobSnapshot| job@);
    assert(shown.len() == keys.len());
    if 0 <= i < inspection.jobs@.len() {
        let key = keys[i];
        assert(shown[i] == job_shown(state@, key));
        assert(shown[i] == inspection.jobs@[i]@);
        assert(state@.jobs.contains_key(key));
        assert(crate::state::registered_as(state@.jobs[key], key));
        let own = |run: ActiveView| run.record.job == state@.jobs[key].job.definition.key;
        lemma_runs_where(state, own);
        lemma_ids(inspection.jobs@[i].active_runs@, id);
    }
}

} // verus!
