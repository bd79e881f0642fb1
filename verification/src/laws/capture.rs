//! Which events are captured, what is kept of them, and what is counted.

use vstd::prelude::*;
use crate::ids::{spells, RunId};
use crate::logging::{
    drained_logs, entry_of, hears, permits, reads_as, unquoted_end, unquoted_start, with_drained,
    with_noted, with_registered, with_removed, with_sealed, BufferView, Fields, IngressView, Level,
    LogPolicy,
};
use crate::model::RunLogView;
use crate::time::Timestamp;

verus! {

/// At a target that the policy names, an error passes at every level of the policy, a warning at
/// all but the level of errors, and so on: trace events pass only where the policy traces. At any
/// other target nothing passes.
pub proof fn policy_level_lets_through(policy: LogPolicy, level: Level, target: Seq<char>)
    ensures
        !policy.targets@.contains_key(target) ==> !permits(policy, level, target),
        policy.targets@.contains_key(target) ==> permits(policy, level, target) == match level {
            Level::Error => true,
            Level::Warn => policy.level != Level::Error,
            Level::Info => policy.level == Level::Info || policy.level == Level::Debug
                || policy.level == Level::Trace,
            Level::Debug => policy.level == Level::Debug || policy.level == Level::Trace,
            Level::Trace => policy.level == Level::Trace,
        },
{
}

/// Whether a level comes right after another towards more detail.
pub open spec fn next_finer(level: Level, finer: Level) -> bool {
    ||| level == Level::Error && finer == Level::Warn
    ||| level == Level::Warn && finer == Level::Info
    ||| level == Level::Info && finer == Level::Debug
    ||| level == Level::Debug && finer == Level::Trace
}

/// A finer policy lets through all that a coarser one does, and the events of its own level
/// besides; a policy lets through its own level, and no finer one.
pub proof fn finer_policy_lets_more_through(
    coarse: LogPolicy,
    fine: LogPolicy,
    level: Level,
    target: Seq<char>,
)
    requires
        next_finer(coarse.level, fine.level),
        fine.targets@ == coarse.targets@,
    ensures
        permits(coarse, level, target) ==> permits(fine, level, target),
        permits(fine, level, target) && !permits(coarse, level, target) ==> level == fine.level,
        coarse.targets@.contains_key(target) ==> permits(coarse, coarse.level, target) && permits(
            fine,
            fine.level,
            target,
        ) && !permits(coarse, fine.level, target),
{
}

/// Levels are kept under their usual names.
pub proof fn levels_are_named()
    ensures
        Level::Error.label() == "ERROR"@,
        Level::Warn.label() == "WARN"@,
        Level::Info.label() == "INFO"@,
        Level::Debug.label() == "DEBUG"@,
        Level::Trace.label() == "TRACE"@,
{
}

/// An event is heard exactly if its run has a buffer that is not sealed.
pub proof fn open_buffers_hear(ingress: IngressView, id: u128)
    ensures
        hears(ingress, id) <==> ingress.runs.contains_key(id) && !ingress.runs[id].sealed,
{
}

/// An event that is heard takes the next sequence number of its run. Its entry waits behind those
/// before it if none of its fields was cut off, it is no larger than an entry may be, the run has
/// kept fewer entries than it may and has room for its bytes, and fewer entries wait than may;
/// otherwise it is counted as dropped, and nothing else is counted.
pub proof fn event_is_kept_if_it_fits(
    policy: LogPolicy,
    ingress: IngressView,
    id: u128,
    fields: Fields,
    time: Timestamp,
    bytes: usize,
)
    requires
        hears(ingress, id),
        ingress.runs[id].sequence < u64::MAX,
        ingress.runs[id].dropped < u64::MAX,
        ingress.runs[id].accepted <= policy.run_entries,
        ingress.budget <= policy.queue_entries,
        ingress.runs[id].bytes <= policy.run_bytes,
    ensures
        ({
            let after = with_noted(policy, ingress, id, fields, time, bytes);
            let old_buffer = ingress.runs[id];
            let buffer = after.runs[id];
            let fits = !fields.overflow && bytes <= policy.entry_bytes && old_buffer.accepted
                < policy.run_entries && bytes <= policy.run_bytes - old_buffer.bytes
                && ingress.budget < policy.queue_entries;
            &&& after.runs == ingress.runs.insert(id, buffer)
            &&& buffer.sequence == old_buffer.sequence + 1
            &&& buffer.sealed == old_buffer.sealed
            &&& fits ==> {
                &&& buffer.queue == old_buffer.queue.push(
                    RunLogView {
                        run_id: id,
                        sequence: (old_buffer.sequence + 1) as u64,
                        time,
                        level: fields.level.label(),
                        target: fields.target@,
                        fields: fields.values.entries(),
                    },
                )
                &&& buffer.accepted == old_buffer.accepted + 1
                &&& buffer.bytes == old_buffer.bytes + bytes
                &&& buffer.dropped == old_buffer.dropped
                &&& after.budget == ingress.budget + 1
            }
            &&& !fits ==> {
                &&& buffer.queue == old_buffer.queue
                &&& buffer.accepted == old_buffer.accepted
                &&& buffer.bytes == old_buffer.bytes
                &&& buffer.dropped == old_buffer.dropped + 1
                &&& after.budget == ingress.budget
            }
        }),
{
}

/// Counters of a run that have reached their largest value stay there.
pub proof fn counters_saturate(
    policy: LogPolicy,
    ingress: IngressView,
    id: u128,
    fields: Fields,
    time: Timestamp,
    bytes: usize,
)
    requires
        hears(ingress, id),
    ensures
        ({
            let buffer = with_noted(policy, ingress, id, fields, time, bytes).runs[id];
            &&& ingress.runs[id].sequence == u64::MAX ==> buffer.sequence == u64::MAX
            &&& ingress.runs[id].dropped == u64::MAX ==> buffer.dropped == u64::MAX
        }),
{
}

/// The entry of an event names its run, its number, its time, its level and its target, and holds
/// its permitted fields under their names.
pub proof fn entry_holds_the_event(
    ingress: IngressView,
    id: u128,
    fields: Fields,
    time: Timestamp,
    name: Seq<char>,
)
    requires
        fields.wf(),
        ingress.runs[id].sequence < u64::MAX,
    ensures
        ({
            let entry = entry_of(ingress, id, fields, time);
            &&& entry.run_id == id
            &&& entry.sequence == ingress.runs[id].sequence + 1
            &&& entry.time == time
            &&& entry.level == fields.level.label()
            &&& entry.target == fields.target@
            &&& fields.values@.contains_key(name) ==> entry.fields.contains(
                (name, fields.values@[name]),
            )
            &&& entry.fields.len() == fields.values@.dom().len()
        }),
{
    let entry = entry_of(ingress, id, fields, time);
    fields.values.lemma_len();
    if fields.values@.contains_key(name) {
        fields.values.lemma_key(name);
        let i = fields.values.position(name);
        assert(entry.fields[i] == (name, fields.values@[name]));
    }
}

/// Whether what waits in a run's buffer is counted in the shared budget.
pub open spec fn budgeted(ingress: IngressView, id: u128) -> bool {
    ingress.runs.contains_key(id) ==> ingress.runs[id].queue.len() <= ingress.budget
}

/// A batch is the oldest entries of a run, all of them or a hundred and twenty-eight; what is
/// left stays in order, and the budget falls by what was taken. Nothing else changes, neither of
/// the run nor of another.
pub proof fn batch_is_the_oldest(ingress: IngressView, id: u128)
    requires
        budgeted(ingress, id),
    ensures
        ({
            let after = with_drained(ingress, id);
            let logs = drained_logs(ingress, id);
            if ingress.runs.contains_key(id) {
                let before = ingress.runs[id];
                &&& logs + after.runs[id].queue == before.queue
                &&& logs.len() == if before.queue.len() <= 128 {
                    before.queue.len()
                } else {
                    128
                }
                &&& after.runs == ingress.runs.insert(id, after.runs[id])
                &&& after.runs[id] == (BufferView { queue: after.runs[id].queue, ..before })
                &&& after.budget == ingress.budget - logs.len()
            } else {
                after == ingress && logs.len() == 0
            }
        }),
{
    if ingress.runs.contains_key(id) {
        let before = ingress.runs[id];
        assert(drained_logs(ingress, id) + with_drained(ingress, id).runs[id].queue
            =~= before.queue);
    }
}

/// Sealing takes everything that waits, keeps the counters, and closes the buffer; nothing else
/// changes.
pub proof fn sealing_takes_the_rest(ingress: IngressView, id: u128)
    requires
        budgeted(ingress, id),
    ensures
        ({
            let after = with_sealed(ingress, id);
            if ingress.runs.contains_key(id) {
                let before = ingress.runs[id];
                &&& after.runs == ingress.runs.insert(id, after.runs[id])
                &&& after.runs[id].sealed
                &&& after.runs[id].queue.len() == 0
                &&& after.runs[id].sequence == before.sequence
                &&& after.runs[id].dropped == before.dropped
                &&& after.runs[id].accepted == before.accepted
                &&& after.runs[id].bytes == before.bytes
                &&& after.budget == ingress.budget - before.queue.len()
            } else {
                after == ingress
            }
        }),
{
}

/// A run that is registered starts with an open, empty buffer and counters at zero; one that is
/// removed has none. What it held before no longer counts, and nothing else changes.
pub proof fn registered_run_starts_afresh(ingress: IngressView, id: u128)
    requires
        budgeted(ingress, id),
    ensures
        ({
            let held = if ingress.runs.contains_key(id) {
                ingress.runs[id].queue.len()
            } else {
                0
            };
            let registered = with_registered(ingress, id);
            let removed = with_removed(ingress, id);
            &&& registered.runs == ingress.runs.insert(
                id,
                BufferView {
                    queue: Seq::empty(),
                    sequence: 0,
                    dropped: 0,
                    accepted: 0,
                    bytes: 0,
                    sealed: false,
                },
            )
            &&& registered.budget == ingress.budget - held
            &&& removed.runs == ingress.runs.remove(id)
            &&& removed.budget == ingress.budget - held
            &&& hears(registered, id)
            &&& !hears(removed, id)
        }),
{
}

/// A run is found in a field exactly if the text of the field spells its identifier.
pub proof fn run_is_found_where_spelled(text: Seq<char>, found: Option<RunId>, id: u128)
    requires
        reads_as(text, found),
    ensures
        found matches Some(run) ==> spells(text, run.bits),
        spells(text, id) ==> found is Some,
{
}

/// A text is read without the quotes around it: exactly the quotes at its start and at its end are
/// left out.
pub proof fn quotes_around_are_left_out(before: nat, bare: Seq<char>, after: nat)
    requires
        bare.len() > 0,
        bare[0] != '"',
        bare.last() != '"',
    ensures
        unquoted_end(
            unquoted_start(
                Seq::new(before, |i: int| '"') + bare + Seq::new(after, |i: int| '"'),
            ),
        ) == bare,
    decreases before + after,
{
    let start = Seq::new(before, |i: int| '"');
    let end = Seq::new(after, |i: int| '"');
    let text = start + bare + end;
    if before > 0 {
        let fewer = Seq::new((before - 1) as nat, |i: int| '"');
        assert(text.drop_first() =~= fewer + bare + end);
        quotes_around_are_left_out((before - 1) as nat, bare, after);
    } else {
        assert(text[0] == bare[0]);
        assert(unquoted_start(text) == text);
        if after > 0 {
            let fewer = Seq::new((after - 1) as nat, |i: int| '"');
            assert(text.drop_last() =~= start + bare + fewer);
            quotes_around_are_left_out(0, bare, (after - 1) as nat);
            let shorter = start + bare + fewer;
            assert(shorter[0] == bare[0]);
            assert(unquoted_start(shorter) == shorter);
        } else {
            assert(text =~= bare);
        }
    }
}

/// A text of nothing but quotes is read as empty.
pub proof fn quotes_alone_are_nothing(count: nat)
    ensures
        unquoted_end(unquoted_start(Seq::new(count, |i: int| '"'))).len() == 0,
    decreases count,
{
    let text = Seq::new(count, |i: int| '"');
    if count > 0 {
        assert(text.drop_first() =~= Seq::new((count - 1) as nat, |i: int| '"'));
        quotes_alone_are_nothing((count - 1) as nat);
    }
}

} // verus!
