//! Bounded log capture: what is permitted, what is kept, and what is counted as dropped.

use vstd::prelude::*;
use vstd::string::*;
use crate::ids::{spells, RunId};
use crate::model::{log_views, RunLog, RunLogView};
use crate::sorted::{Present, SortedMap};
use crate::text::{byte_len, lemma_utf8_concat, same_text, text_bytes};
use crate::tick::counted;
use crate::time::{Clock, SystemClock, Timestamp};

verus! {

/// The most entries that are taken from a buffer at once.
pub const BATCH_ENTRIES: usize = 128;

/// How severe an event is.
#[derive(Debug, Clone, Copy, PartialEq, Eq, Hash, Structural)]
pub enum Level {
    Error,
    Warn,
    Info,
    Debug,
    Trace,
}

impl Level {
    /// How verbose a level is.
    pub open spec fn verbosity(self) -> int {
        match self {
            Level::Error => 1,
            Level::Warn => 2,
            Level::Info => 3,
            Level::Debug => 4,
            Level::Trace => 5,
        }
    }

    fn rank(self) -> (rank: u8)
        ensures
            rank == self.verbosity(),
    {
        match self {
            Level::Error => 1,
            Level::Warn => 2,
            Level::Info => 3,
            Level::Debug => 4,
            Level::Trace => 5,
        }
    }

    /// The name of a level, as the journal keeps it.
    pub open spec fn label(self) -> Seq<char> {
        match self {
            Level::Error => "ERROR"@,
            Level::Warn => "WARN"@,
            Level::Info => "INFO"@,
            Level::Debug => "DEBUG"@,
            Level::Trace => "TRACE"@,
        }
    }

    /// Writes the name of a level.
    pub fn name(self) -> (name: String)
        ensures
            name@ == self.label(),
    {
        match self {
            Level::Error => "ERROR".to_string(),
            Level::Warn => "WARN".to_string(),
            Level::Info => "INFO".to_string(),
            Level::Debug => "DEBUG".to_string(),
            Level::Trace => "TRACE".to_string(),
        }
    }
}

/// The names of the fields that may be captured.
pub type FieldNames = SortedMap<String, Present>;

/// What may be captured, and how much of it.
pub struct LogPolicy {
    /// Exact target to allowed field names. Empty by default: every event is denied. Allow
    /// `message` only if every event at this target uses safe fixed text.
    pub targets: SortedMap<String, FieldNames>,
    pub level: Level,
    pub queue_entries: usize,
    pub entry_bytes: usize,
    pub run_entries: usize,
    pub run_bytes: usize,
}

impl Default for LogPolicy {
    fn default() -> (policy: Self)
        ensures
            policy.wf(),
            policy.targets@ == Map::<Seq<char>, Map<Seq<char>, Present>>::empty(),
            policy.level == Level::Info,
            policy.queue_entries == 1024,
            policy.entry_bytes == 4096,
            policy.run_entries == 4096,
            policy.run_bytes == 1_048_576,
    {
        LogPolicy {
            targets: SortedMap::new(),
            level: Level::Info,
            queue_entries: 1024,
            entry_bytes: 4096,
            run_entries: 4096,
            run_bytes: 1024 * 1024,
        }
    }
}

/// Whether a policy lets an event of a level and a target through.
pub open spec fn permits(policy: LogPolicy, level: Level, target: Seq<char>) -> bool {
    level.verbosity() <= policy.level.verbosity() && policy.targets@.contains_key(target)
}

impl LogPolicy {
    pub open spec fn wf(&self) -> bool {
        &&& self.targets.wf()
        &&& forall|i: int| 0 <= i < self.targets.items@.len() ==> (
        #[trigger] self.targets.items@[i]).1.wf()
    }

    /// Starts to capture an event, if the policy lets it through.
    pub fn open<'a>(&'a self, level: Level, target: &str) -> (fields: Option<Fields<'a>>)
        requires
            self.wf(),
        ensures
            fields is Some <==> permits(*self, level, target@),
            fields matches Some(f) ==> {
                &&& f.wf()
                &&& f.level == level
                &&& f.target@ == target@
                &&& f.allow@ == self.targets@[target@]
                &&& f.values@ == Map::<Seq<char>, Seq<char>>::empty()
                &&& f.max == self.entry_bytes
                &&& !f.overflow
            },
    {
        if level.rank() > self.level.rank() {
            return None;
        }
        match self.targets.find(&target.to_string()) {
            None => None,
            Some(position) => Some(
                Fields {
                    level,
                    target: target.to_string(),
                    allow: &self.targets.items[position].1,
                    values: SortedMap::new(),
                    max: self.entry_bytes,
                    overflow: false,
                },
            ),
        }
    }
}

/// A text that stops growing once it would pass its limit.
#[derive(Debug)]
pub struct Limited {
    pub text: String,
    pub remaining: usize,
    pub overflow: bool,
}

impl Limited {
    /// An empty text with a limit on its bytes.
    pub fn new(max: usize) -> (out: Self)
        ensures
            out.text@ == Seq::<char>::empty(),
            out.remaining == max,
            !out.overflow,
            byte_len(out.text@) + out.remaining == max,
    {
        Limited { text: String::new(), remaining: max, overflow: false }
    }

    /// Adds a piece whole, or refuses it and notes the overflow.
    pub fn write_str(&mut self, piece: &str) -> (written: bool)
        ensures
            written <==> byte_len(piece@) <= old(self).remaining,
            written ==> {
                &&& final(self).text@ == old(self).text@ + piece@
                &&& final(self).remaining == old(self).remaining - byte_len(piece@)
                &&& final(self).overflow == old(self).overflow
            },
            !written ==> {
                &&& final(self).text@ == old(self).text@
                &&& final(self).remaining == old(self).remaining
                &&& final(self).overflow
            },
            byte_len(final(self).text@) + final(self).remaining == byte_len(old(self).text@)
                + old(self).remaining,
    {
        proof {
            lemma_utf8_concat(self.text@, piece@);
        }
        let bytes: usize = text_bytes(piece);
        if bytes > self.remaining {
            self.overflow = true;
            return false;
        }
        self.remaining = self.remaining - bytes;
        self.text.append(piece);
        true
    }
}

/// The permitted fields of an event that is being captured.
pub struct Fields<'a> {
    pub level: Level,
    pub target: String,
    pub allow: &'a FieldNames,
    pub values: SortedMap<String, String>,
    pub max: usize,
    pub overflow: bool,
}

impl<'a> Fields<'a> {
    /// Only permitted fields are held.
    pub open spec fn wf(&self) -> bool {
        &&& self.allow.wf()
        &&& self.values.wf()
        &&& self.values@.dom().subset_of(self.allow@.dom())
    }

    /// Whether a field may be captured.
    pub fn allows(&self, name: &str) -> (allowed: bool)
        requires
            self.wf(),
        ensures
            allowed == self.allow@.contains_key(name@),
    {
        self.allow.contains(&name.to_string())
    }

    /// Captures a field, if it is permitted: its text as far as it was written, and whether it was
    /// cut off.
    pub fn record(&mut self, name: &str, out: Limited)
        requires
            old(self).wf(),
        ensures
            final(self).wf(),
            final(self).level == old(self).level,
            final(self).target == old(self).target,
            final(self).allow == old(self).allow,
            final(self).max == old(self).max,
            final(self).values@ == if old(self).allow@.contains_key(name@) {
                old(self).values@.insert(name@, out.text@)
            } else {
                old(self).values@
            },
            final(self).overflow == (old(self).overflow || old(self).allow@.contains_key(name@)
                && out.overflow),
    {
        if self.allows(name) {
            if out.overflow {
                self.overflow = true;
            }
            self.values.insert(name.to_string(), out.text);
        }
    }
}

/// The logs of one run that wait for the journal, and their counters.
#[derive(Debug)]
pub struct Buffer {
    pub queue: Vec<RunLog>,
    /// The sequence number of the last event.
    pub sequence: u64,
    pub dropped: u64,
    pub accepted: usize,
    pub bytes: usize,
    pub sealed: bool,
}

pub struct BufferView {
    pub queue: Seq<RunLogView>,
    pub sequence: u64,
    pub dropped: u64,
    pub accepted: usize,
    pub bytes: usize,
    pub sealed: bool,
}

impl View for Buffer {
    type V = BufferView;

    open spec fn view(&self) -> BufferView {
        BufferView {
            queue: log_views(self.queue@),
            sequence: self.sequence,
            dropped: self.dropped,
            accepted: self.accepted,
            bytes: self.bytes,
            sealed: self.sealed,
        }
    }
}

/// A buffer that has seen nothing.
pub open spec fn empty_buffer() -> BufferView {
    BufferView { queue: Seq::empty(), sequence: 0, dropped: 0, accepted: 0, bytes: 0, sealed: false }
}

/// How many entries are taken from a queue at once.
pub open spec fn batch(queued: nat) -> nat {
    if queued < BATCH_ENTRIES {
        queued
    } else {
        BATCH_ENTRIES as nat
    }
}

/// Whether the counters of a buffer keep to a policy and add up: every event was accepted or
/// dropped, as long as sequence numbers last, and entries wait in the order of their numbers.
pub open spec fn buffer_fits(policy: LogPolicy, id: u128, buffer: BufferView) -> bool {
    &&& buffer.accepted <= policy.run_entries
    &&& buffer.bytes <= policy.run_bytes
    &&& buffer.queue.len() <= buffer.accepted
    &&& buffer.sequence < u64::MAX ==> buffer.sequence == buffer.accepted + buffer.dropped
    &&& forall|i: int|
        0 <= i < buffer.queue.len() ==> (#[trigger] buffer.queue[i]).run_id == id
            && buffer.queue[i].sequence <= buffer.sequence
    &&& buffer.sequence < u64::MAX ==> forall|i: int, j: int|
        0 <= i < j < buffer.queue.len() ==> (#[trigger] buffer.queue[i]).sequence < (
        #[trigger] buffer.queue[j]).sequence
}

/// The number of entries that wait in all buffers.
pub open spec fn queued(runs: Seq<(RunId, Buffer)>) -> nat
    decreases runs.len(),
{
    if runs.len() == 0 {
        0
    } else {
        queued(runs.drop_last()) + runs.last().1.queue@.len()
    }
}

proof fn lemma_queued_concat(a: Seq<(RunId, Buffer)>, b: Seq<(RunId, Buffer)>)
    ensures
        queued(a + b) == queued(a) + queued(b),
    decreases b.len(),
{
    if b.len() == 0 {
        assert(a + b =~= a);
    } else {
        assert((a + b).drop_last() =~= a + b.drop_last());
        lemma_queued_concat(a, b.drop_last());
    }
}

proof fn lemma_queued_split(runs: Seq<(RunId, Buffer)>, i: int)
    requires
        0 <= i < runs.len(),
    ensures
        queued(runs) == queued(runs.take(i)) + runs[i].1.queue@.len() + queued(runs.skip(i + 1)),
{
    assert(runs =~= runs.take(i).push(runs[i]) + runs.skip(i + 1));
    lemma_queued_concat(runs.take(i).push(runs[i]), runs.skip(i + 1));
    assert(runs.take(i).push(runs[i]).drop_last() =~= runs.take(i));
}

proof fn lemma_queued_update(runs: Seq<(RunId, Buffer)>, i: int, entry: (RunId, Buffer))
    requires
        0 <= i < runs.len(),
    ensures
        queued(runs.update(i, entry)) == queued(runs) - runs[i].1.queue@.len()
            + entry.1.queue@.len(),
        runs[i].1.queue@.len() <= queued(runs),
{
    lemma_queued_split(runs, i);
    lemma_queued_split(runs.update(i, entry), i);
    assert(runs.update(i, entry).take(i) =~= runs.take(i));
    assert(runs.update(i, entry).skip(i + 1) =~= runs.skip(i + 1));
}

proof fn lemma_queued_insert(runs: Seq<(RunId, Buffer)>, i: int, entry: (RunId, Buffer))
    requires
        0 <= i <= runs.len(),
    ensures
        queued(runs.insert(i, entry)) == queued(runs) + entry.1.queue@.len(),
{
    lemma_queued_split(runs.insert(i, entry), i);
    assert(runs.insert(i, entry).take(i) =~= runs.take(i));
    assert(runs.insert(i, entry).skip(i + 1) =~= runs.skip(i));
    assert(runs =~= runs.take(i) + runs.skip(i));
    lemma_queued_concat(runs.take(i), runs.skip(i));
}

proof fn lemma_queued_remove(runs: Seq<(RunId, Buffer)>, i: int)
    requires
        0 <= i < runs.len(),
    ensures
        queued(runs.remove(i)) == queued(runs) - runs[i].1.queue@.len(),
        runs[i].1.queue@.len() <= queued(runs),
{
    lemma_queued_split(runs, i);
    assert(runs.remove(i) =~= runs.take(i) + runs.skip(i + 1));
    lemma_queued_concat(runs.take(i), runs.skip(i + 1));
}

/// Where events of runs come in: a buffer for each run, and a budget that they share.
pub struct Ingress {
    /// The number of entries that wait in all buffers.
    pub budget: usize,
    pub runs: SortedMap<RunId, Buffer>,
}

pub struct IngressView {
    pub budget: usize,
    pub runs: Map<u128, BufferView>,
}

impl View for Ingress {
    type V = IngressView;

    open spec fn view(&self) -> IngressView {
        IngressView { budget: self.budget, runs: self.runs@ }
    }
}

impl Ingress {
    /// The budget is what waits, it is within the policy, and every buffer keeps to the policy.
    pub open spec fn wf(&self, policy: LogPolicy) -> bool {
        &&& self.runs.wf()
        &&& self.budget == queued(self.runs.items@)
        &&& self.budget <= policy.queue_entries
        &&& forall|id: u128| #[trigger]
            self.runs@.contains_key(id) ==> buffer_fits(policy, id, self.runs@[id])
    }
}

/// How many entries of a run wait.
pub open spec fn waiting(ingress: IngressView, id: u128) -> nat {
    if ingress.runs.contains_key(id) {
        ingress.runs[id].queue.len()
    } else {
        0
    }
}

/// What comes in after a run got a fresh buffer.
pub open spec fn with_registered(ingress: IngressView, id: u128) -> IngressView {
    IngressView {
        budget: (ingress.budget - waiting(ingress, id)) as usize,
        runs: ingress.runs.insert(id, empty_buffer()),
    }
}

/// What comes in after the buffer of a run was given up: what it held no longer counts.
pub open spec fn with_removed(ingress: IngressView, id: u128) -> IngressView {
    IngressView {
        budget: (ingress.budget - waiting(ingress, id)) as usize,
        runs: ingress.runs.remove(id),
    }
}

/// The batch that is taken from the buffer of a run.
pub open spec fn drained_logs(ingress: IngressView, id: u128) -> Seq<RunLogView> {
    if ingress.runs.contains_key(id) {
        ingress.runs[id].queue.take(batch(ingress.runs[id].queue.len()) as int)
    } else {
        Seq::empty()
    }
}

/// What comes in after a batch was taken from the buffer of a run.
pub open spec fn with_drained(ingress: IngressView, id: u128) -> IngressView {
    if ingress.runs.contains_key(id) {
        let buffer = ingress.runs[id];
        let taken = batch(buffer.queue.len());
        IngressView {
            budget: (ingress.budget - taken) as usize,
            runs: ingress.runs.insert(
                id,
                BufferView { queue: buffer.queue.skip(taken as int), ..buffer },
            ),
        }
    } else {
        ingress
    }
}

/// What comes in after the buffer of a run was sealed: everything was taken from it.
pub open spec fn with_sealed(ingress: IngressView, id: u128) -> IngressView {
    if ingress.runs.contains_key(id) {
        let buffer = ingress.runs[id];
        IngressView {
            budget: (ingress.budget - buffer.queue.len()) as usize,
            runs: ingress.runs.insert(
                id,
                BufferView { queue: Seq::empty(), sealed: true, ..buffer },
            ),
        }
    } else {
        ingress
    }
}

/// Whether an event of a run is heard: the run is registered and its buffer not sealed.
pub open spec fn hears(ingress: IngressView, id: u128) -> bool {
    ingress.runs.contains_key(id) && !ingress.runs[id].sealed
}

/// The entry of an event.
pub open spec fn entry_of(
    ingress: IngressView,
    id: u128,
    fields: Fields,
    time: Timestamp,
) -> RunLogView {
    RunLogView {
        run_id: id,
        sequence: counted(ingress.runs[id].sequence),
        time,
        level: fields.level.label(),
        target: fields.target@,
        fields: fields.values.entries(),
    }
}

/// Whether an entry of a given size is kept.
pub open spec fn keeps(
    policy: LogPolicy,
    ingress: IngressView,
    id: u128,
    overflow: bool,
    bytes: usize,
) -> bool {
    let buffer = ingress.runs[id];
    &&& !overflow
    &&& bytes <= policy.entry_bytes
    &&& buffer.accepted < policy.run_entries
    &&& buffer.bytes + bytes <= policy.run_bytes
    &&& ingress.budget < policy.queue_entries
}

/// What comes in after an event: it takes a sequence number, and its entry is kept or counted as
/// dropped.
pub open spec fn with_noted(
    policy: LogPolicy,
    ingress: IngressView,
    id: u128,
    fields: Fields,
    time: Timestamp,
    bytes: usize,
) -> IngressView {
    let buffer = ingress.runs[id];
    let numbered = BufferView { sequence: counted(buffer.sequence), ..buffer };
    if keeps(policy, ingress, id, fields.overflow, bytes) {
        IngressView {
            budget: (ingress.budget + 1) as usize,
            runs: ingress.runs.insert(
                id,
                BufferView {
                    queue: buffer.queue.push(entry_of(ingress, id, fields, time)),
                    accepted: (buffer.accepted + 1) as usize,
                    bytes: (buffer.bytes + bytes) as usize,
                    ..numbered
                },
            ),
        }
    } else {
        IngressView {
            runs: ingress.runs.insert(
                id,
                BufferView { dropped: counted(buffer.dropped), ..numbered },
            ),
            ..ingress
        }
    }
}

impl Ingress {
    pub fn new() -> (ingress: Self)
        ensures
            forall|policy: LogPolicy| ingress.wf(policy),
            ingress@ == (IngressView { budget: 0, runs: Map::empty() }),
    {
        Ingress { budget: 0, runs: SortedMap::new() }
    }

    /// Takes the buffer at a position out, to be put back: an empty one stands there meanwhile.
    fn take(&mut self, position: usize) -> (buffer: Buffer)
        requires
            old(self).runs.wf(),
            position < old(self).runs.items@.len(),
        ensures
            final(self).runs.wf(),
            final(self).budget == old(self).budget,
            buffer == old(self).runs.items@[position as int].1,
            final(self).runs.items@.len() == old(self).runs.items@.len(),
            final(self).runs.key_at(position as int) == old(self).runs.key_at(position as int),
            final(self).runs@ == old(self).runs@.insert(
                old(self).runs.key_at(position as int),
                empty_buffer(),
            ),
            queued(final(self).runs.items@) == queued(old(self).runs.items@) - buffer.queue@.len(),
            final(self).runs.items@[position as int].1.queue@.len() == 0,
    {
        let spare = Buffer {
            queue: Vec::new(),
            sequence: 0,
            dropped: 0,
            accepted: 0,
            bytes: 0,
            sealed: false,
        };
        assert(spare@.queue =~= Seq::<RunLogView>::empty());
        proof {
            lemma_queued_update(
                self.runs.items@,
                position as int,
                (self.runs.items@[position as int].0, spare),
            );
        }
        self.runs.replace(position, spare)
    }

    /// Puts a buffer where one was taken out.
    fn put_back(&mut self, policy: &LogPolicy, position: usize, buffer: Buffer, budget: usize)
        requires
            old(self).runs.wf(),
            position < old(self).runs.items@.len(),
            old(self).runs.items@[position as int].1.queue@.len() == 0,
            budget == queued(old(self).runs.items@) + buffer.queue@.len(),
            budget <= policy.queue_entries,
            buffer_fits(*policy, old(self).runs.key_at(position as int), buffer@),
            forall|id: u128| #[trigger]
                old(self).runs@.contains_key(id) && id != old(self).runs.key_at(position as int)
                    ==> buffer_fits(*policy, id, old(self).runs@[id]),
        ensures
            final(self).wf(*policy),
            final(self)@ == (IngressView {
                budget,
                runs: old(self)@.runs.insert(old(self).runs.key_at(position as int), buffer@),
            }),
    {
        let ghost before = self.runs;
        proof {
            lemma_queued_update(
                before.items@,
                position as int,
                (before.items@[position as int].0, buffer),
            );
        }
        self.runs.set(position, buffer);
        self.budget = budget;
        assert forall|id: u128| #[trigger] self.runs@.contains_key(id) implies buffer_fits(
            *policy,
            id,
            self.runs@[id],
        ) by {
            if id != before.key_at(position as int) {
                assert(before@.contains_key(id));
            }
        }
    }

    /// Opens a fresh buffer for a run.
    pub fn register(&mut self, policy: &LogPolicy, id: RunId)
        requires
            old(self).wf(*policy),
        ensures
            final(self).wf(*policy),
            final(self)@ == with_registered(old(self)@, id@),
    {
        self.remove(policy, id);
        let buffer = Buffer {
            queue: Vec::new(),
            sequence: 0,
            dropped: 0,
            accepted: 0,
            bytes: 0,
            sealed: false,
        };
        assert(buffer@.queue =~= Seq::<RunLogView>::empty());
        let ghost before = self.runs;
        self.runs.insert(id, buffer);
        proof {
            let p = choose|p: int|
                0 <= p <= before.items@.len() && self.runs.items@
                    == #[trigger] before.items@.insert(p, (id, buffer));
            lemma_queued_insert(before.items@, p, (id, buffer));
            assert forall|k: u128| #[trigger] self.runs@.contains_key(k) implies buffer_fits(
                *policy,
                k,
                self.runs@[k],
            ) by {
                if k != id@ {
                    assert(before@.contains_key(k));
                }
            }
            assert(self@.runs =~= old(self)@.runs.insert(id@, empty_buffer()));
        }
    }

    /// Gives up the buffer of a run.
    pub fn remove(&mut self, policy: &LogPolicy, id: RunId)
        requires
            old(self).wf(*policy),
        ensures
            final(self).wf(*policy),
            final(self)@ == with_removed(old(self)@, id@),
    {
        let ghost before = self.runs;
        match self.runs.remove(&id) {
            None => {
                assert(self@.runs =~= old(self)@.runs.remove(id@));
            },
            Some(buffer) => {
                proof {
                    before.lemma_key(id@);
                    lemma_queued_remove(before.items@, before.position(id@));
                    assert(buffer@ == before@[id@]);
                    assert(buffer.queue@.len() == buffer@.queue.len());
                }
                self.budget = self.budget - buffer.queue.len();
            },
        }
        assert forall|k: u128| #[trigger] self.runs@.contains_key(k) implies buffer_fits(
            *policy,
            k,
            self.runs@[k],
        ) by {
            assert(before@.contains_key(k));
        }
    }

    /// Whether a run has a buffer, so that its events are worth looking at.
    pub fn knows(&self, id: RunId) -> (known: bool)
        requires
            self.runs.wf(),
        ensures
            known == self@.runs.contains_key(id@),
    {
        match self.runs.find(&id) {
            Some(_) => true,
            None => false,
        }
    }

    /// Takes a batch from the buffer of a run, the oldest entries first.
    pub fn drain(&mut self, policy: &LogPolicy, id: RunId) -> (logs: Vec<RunLog>)
        requires
            old(self).wf(*policy),
        ensures
            final(self).wf(*policy),
            final(self)@ == with_drained(old(self)@, id@),
            log_views(logs@) == drained_logs(old(self)@, id@),
    {
        match self.runs.find(&id) {
            None => {
                let logs: Vec<RunLog> = Vec::new();
                assert(log_views(logs@) =~= Seq::<RunLogView>::empty());
                logs
            },
            Some(position) => {
                let ghost start = self@;
                let ghost before = self.runs.items@[position as int].1;
                let mut buffer = self.take(position);
                let mut logs = buffer.queue;
                let count: usize = if logs.len() < BATCH_ENTRIES {
                    logs.len()
                } else {
                    BATCH_ENTRIES
                };
                buffer.queue = logs.split_off(count);
                proof {
                    let taken = count as int;
                    assert(log_views(logs@) =~= before@.queue.take(taken));
                    assert(buffer@.queue =~= before@.queue.skip(taken));
                    assert forall|i: int| 0 <= i < buffer@.queue.len() implies (
                    #[trigger] buffer@.queue[i]).run_id == id@ && buffer@.queue[i].sequence
                        <= buffer.sequence by {
                        assert(buffer@.queue[i] == before@.queue[i + taken]);
                    }
                    if buffer.sequence < u64::MAX {
                        assert forall|i: int, j: int| 0 <= i < j < buffer@.queue.len() implies (
                        #[trigger] buffer@.queue[i]).sequence < (
                        #[trigger] buffer@.queue[j]).sequence by {
                            assert(buffer@.queue[i] == before@.queue[i + taken]);
                            assert(buffer@.queue[j] == before@.queue[j + taken]);
                        }
                    }
                }
                let budget: usize = self.budget - logs.len();
                self.put_back(policy, position, buffer, budget);
                assert(self@.runs =~= with_drained(start, id@).runs);
                logs
            },
        }
    }

    /// Seals the buffer of a run: takes all that is left, with the last sequence number and the
    /// number of dropped events.
    pub fn seal(&mut self, policy: &LogPolicy, id: RunId) -> (rest: (Vec<RunLog>, u64, u64))
        requires
            old(self).wf(*policy),
        ensures
            final(self).wf(*policy),
            final(self)@ == with_sealed(old(self)@, id@),
            old(self)@.runs.contains_key(id@) ==> {
                let buffer = old(self)@.runs[id@];
                (log_views(rest.0@), rest.1, rest.2) == (
                    buffer.queue,
                    buffer.sequence,
                    buffer.dropped,
                )
            },
            !old(self)@.runs.contains_key(id@) ==> rest.0@.len() == 0 && rest.1 == 0 && rest.2
                == 0,
    {
        match self.runs.find(&id) {
            None => (Vec::new(), 0, 0),
            Some(position) => {
                let ghost start = self@;
                let mut buffer = self.take(position);
                let rest = buffer.queue;
                buffer.queue = Vec::new();
                buffer.sealed = true;
                let sequence: u64 = buffer.sequence;
                let dropped: u64 = buffer.dropped;
                assert(buffer@.queue =~= Seq::<RunLogView>::empty());
                let budget: usize = self.budget - rest.len();
                self.put_back(policy, position, buffer, budget);
                assert(self@.runs =~= with_sealed(start, id@).runs);
                (rest, sequence, dropped)
            },
        }
    }

    /// Notes an event of a run that the policy let through. `measure` tells how many bytes its
    /// entry takes in the journal. An event of an unknown run or a sealed buffer is not heard.
    pub fn note<F: FnOnce(&RunLog) -> usize>(
        &mut self,
        policy: &LogPolicy,
        id: RunId,
        fields: Fields,
        time: Timestamp,
        measure: F,
    ) -> (heard: bool)
        requires
            old(self).wf(*policy),
            fields.wf(),
            forall|log: &RunLog| call_requires(measure, (log,)),
        ensures
            final(self).wf(*policy),
            heard == hears(old(self)@, id@),
            !heard ==> final(self)@ == old(self)@,
            heard ==> exists|log: &RunLog, bytes: usize|
                {
                    &&& log@ == entry_of(old(self)@, id@, fields, time)
                    &&& #[trigger] call_ensures(measure, (log,), bytes)
                    &&& final(self)@ == with_noted(
                        *policy,
                        old(self)@,
                        id@,
                        fields,
                        time,
                        bytes,
                    )
                },
    {
        match self.runs.find(&id) {
            None => false,
            Some(position) => {
                if self.runs.items[position].1.sealed {
                    return false;
                }
                let ghost start = self@;
                let held: usize = self.budget;
                let mut buffer = self.take(position);
                let ghost before = buffer@;
                buffer.sequence = buffer.sequence.saturating_add(1);
                let overflow = fields.overflow;
                let log = RunLog {
                    run_id: id,
                    sequence: buffer.sequence,
                    time,
                    level: fields.level.name(),
                    target: fields.target,
                    fields: fields.values,
                };
                let bytes: usize = measure(&log);
                let ghost measured = (&log,);
                assert(call_ensures(measure, measured, bytes));
                if overflow || bytes > policy.entry_bytes || buffer.accepted >= policy.run_entries
                    || bytes > policy.run_bytes - buffer.bytes || held >= policy.queue_entries {
                    buffer.dropped = buffer.dropped.saturating_add(1);
                    self.put_back(policy, position, buffer, held);
                } else {
                    let ghost entry = log@;
                    buffer.accepted = buffer.accepted + 1;
                    buffer.bytes = buffer.bytes + bytes;
                    buffer.queue.push(log);
                    proof {
                        let queue = buffer@.queue;
                        assert(queue =~= before.queue.push(entry));
                        assert forall|i: int| 0 <= i < queue.len() implies (
                        #[trigger] queue[i]).run_id == id@ && queue[i].sequence
                            <= buffer.sequence by {
                            if i < before.queue.len() {
                                assert(queue[i] == before.queue[i]);
                            }
                        }
                        if buffer.sequence < u64::MAX {
                            assert forall|i: int, j: int| 0 <= i < j < queue.len() implies (
                            #[trigger] queue[i]).sequence < (#[trigger] queue[j]).sequence by {
                                assert(queue[i] == before.queue[i]);
                                if j < before.queue.len() {
                                    assert(queue[j] == before.queue[j]);
                                }
                            }
                        }
                    }
                    self.put_back(policy, position, buffer, held + 1);
                }
                assert(self@.runs =~= with_noted(
                    *policy,
                    start,
                    id@,
                    fields,
                    time,
                    bytes,
                ).runs);
                true
            },
        }
    }

    /// Notes an event at the time of the machine's clock.
    pub fn note_now<F: FnOnce(&RunLog) -> usize>(
        &mut self,
        policy: &LogPolicy,
        id: RunId,
        fields: Fields,
        measure: F,
    ) -> (heard: bool)
        requires
            old(self).wf(*policy),
            fields.wf(),
            forall|log: &RunLog| call_requires(measure, (log,)),
        ensures
            final(self).wf(*policy),
            heard == hears(old(self)@, id@),
            !heard ==> final(self)@ == old(self)@,
            heard ==> exists|log: &RunLog, bytes: usize, time: Timestamp|
                {
                    &&& time.representable()
                    &&& log@ == #[trigger] entry_of(old(self)@, id@, fields, time)
                    &&& #[trigger] call_ensures(measure, (log,), bytes)
                    &&& final(self)@ == with_noted(
                        *policy,
                        old(self)@,
                        id@,
                        fields,
                        time,
                        bytes,
                    )
                },
    {
        let time = SystemClock.now();
        self.note(policy, id, fields, time, measure)
    }
}

/// A text without the quotes at its start.
pub open spec fn unquoted_start(text: Seq<char>) -> Seq<char>
    decreases text.len(),
{
    if text.len() > 0 && text[0] == '"' {
        unquoted_start(text.drop_first())
    } else {
        text
    }
}

/// A text without the quotes at its end.
pub open spec fn unquoted_end(text: Seq<char>) -> Seq<char>
    decreases text.len(),
{
    if text.len() > 0 && text.last() == '"' {
        unquoted_end(text.drop_last())
    } else {
        text
    }
}

/// Removes all quotes at the start and all at the end.
fn without_quotes(text: &str) -> (bare: &str)
    ensures
        bare@ == unquoted_end(unquoted_start(text@)),
{
    let len: usize = text.unicode_len();
    let mut from: usize = 0;
    assert(text@.skip(0) =~= text@);
    while from < len && text.get_char(from) == '"'
        invariant
            from <= len,
            len == text@.len(),
            unquoted_start(text@) == unquoted_start(text@.skip(from as int)),
        decreases len - from,
    {
        assert(text@.skip(from as int).drop_first() =~= text@.skip(from + 1));
        from = from + 1;
    }
    let ghost rest = text@.skip(from as int);
    assert(unquoted_start(rest) == rest);
    let mut to: usize = len;
    assert(text@.subrange(from as int, to as int) =~= rest);
    while to > from && text.get_char(to - 1) == '"'
        invariant
            from <= to <= len,
            len == text@.len(),
            unquoted_end(rest) == unquoted_end(text@.subrange(from as int, to as int)),
        decreases to - from,
    {
        assert(text@.subrange(from as int, to as int).drop_last() =~= text@.subrange(
            from as int,
            to - 1,
        ));
        to = to - 1;
    }
    let bare = text.substring_char(from, to);
    assert(unquoted_end(bare@) == bare@);
    bare
}

/// Looks for the run that a span belongs to among the span's fields.
#[derive(Debug, Clone, Copy, PartialEq, Eq, Structural)]
pub struct RunVisitor {
    pub found: Option<RunId>,
}

/// Whether a run is what a text spells, if it spells any.
pub open spec fn reads_as(text: Seq<char>, found: Option<RunId>) -> bool {
    match found {
        Some(id) => spells(text, id@),
        None => forall|b: u128| !spells(text, b),
    }
}

impl RunVisitor {
    pub fn new() -> (visitor: Self)
        ensures
            visitor.found is None,
    {
        RunVisitor { found: None }
    }

    /// Sees a field by its debug form, which may stand in quotes.
    pub fn see_debug(&mut self, field: &str, shown: &str)
        ensures
            field@ != "job_run_id"@ ==> *final(self) == *old(self),
            field@ == "job_run_id"@ ==> reads_as(
                unquoted_end(unquoted_start(shown@)),
                final(self).found,
            ),
    {
        if same_text(field, "job_run_id") {
            self.found = RunId::parse(without_quotes(shown));
        }
    }

    /// Sees a text field.
    pub fn see_str(&mut self, field: &str, value: &str)
        ensures
            field@ != "job_run_id"@ ==> *final(self) == *old(self),
            field@ == "job_run_id"@ ==> reads_as(value@, final(self).found),
    {
        if same_text(field, "job_run_id") {
            self.found = RunId::parse(value);
        }
    }
}

/// A policy without targets denies every event.
pub proof fn policy_without_targets_denies_all(policy: LogPolicy, level: Level, target: Seq<char>)
    requires
        policy.targets@ == Map::<Seq<char>, Map<Seq<char>, Present>>::empty(),
    ensures
        !permits(policy, level, target),
{
}

/// Every field of an entry is permitted by the policy of its target.
pub proof fn only_permitted_fields_are_kept(
    ingress: IngressView,
    id: u128,
    fields: Fields,
    time: Timestamp,
    i: int,
)
    requires
        fields.wf(),
        0 <= i < entry_of(ingress, id, fields, time).fields.len(),
    ensures
        fields.allow@.contains_key(entry_of(ingress, id, fields, time).fields[i].0),
{
    fields.values.lemma_entry(i);
    assert(fields.values@.dom().contains(fields.values.key_at(i)));
}

/// Once the buffer of a run is sealed, no event changes what is kept of the run, until the run is
/// registered anew.
pub proof fn sealed_run_hears_nothing(ingress: IngressView, id: u128)
    ensures
        !hears(with_sealed(ingress, id), id),
        waiting(with_sealed(ingress, id), id) == 0,
{
}

/// Every event that is heard takes the next sequence number, and either waits for the journal or
/// counts as dropped.
pub proof fn heard_event_is_kept_or_counted(
    policy: LogPolicy,
    ingress: IngressView,
    id: u128,
    fields: Fields,
    time: Timestamp,
    bytes: usize,
)
    requires
        hears(ingress, id),
        ingress.runs[id].sequence < u64::MAX,
        ingress.runs[id].dropped < u64::MAX,
        ingress.runs[id].accepted < usize::MAX,
    ensures
        ({
            let before = ingress.runs[id];
            let after = with_noted(policy, ingress, id, fields, time, bytes).runs[id];
            &&& after.sequence == before.sequence + 1
            &&& after.accepted + after.dropped == before.accepted + before.dropped + 1
            &&& after.queue == before.queue || after.queue == before.queue.push(
                entry_of(ingress, id, fields, time),
            )
        }),
{
}

/// An event of one run changes nothing of another.
pub proof fn event_touches_its_run_only(
    policy: LogPolicy,
    ingress: IngressView,
    id: u128,
    fields: Fields,
    time: Timestamp,
    bytes: usize,
    other: u128,
)
    requires
        other != id,
        ingress.runs.contains_key(other),
    ensures
        with_noted(policy, ingress, id, fields, time, bytes).runs[other] == ingress.runs[other],
{
}

/// Something that happens where events come in.
pub enum Incident<'a> {
    /// An event of a run, with its permitted fields, its time and the size of its entry.
    Noted { id: u128, fields: Fields<'a>, time: Timestamp, bytes: usize },
    Registered(u128),
    Removed(u128),
    Drained(u128),
    Sealed(u128),
}

/// What comes in after an incident.
pub open spec fn with_incident(
    policy: LogPolicy,
    ingress: IngressView,
    incident: Incident,
) -> IngressView {
    match incident {
        Incident::Noted { id, fields, time, bytes } => if hears(ingress, id) {
            with_noted(policy, ingress, id, fields, time, bytes)
        } else {
            ingress
        },
        Incident::Registered(id) => with_registered(ingress, id),
        Incident::Removed(id) => with_removed(ingress, id),
        Incident::Drained(id) => with_drained(ingress, id),
        Incident::Sealed(id) => with_sealed(ingress, id),
    }
}

/// What comes in after the first `n` of a series of incidents.
pub open spec fn after_incidents(
    policy: LogPolicy,
    ingress: IngressView,
    incidents: Seq<Incident>,
    n: int,
) -> IngressView
    decreases n,
{
    if n <= 0 {
        ingress
    } else {
        with_incident(
            policy,
            after_incidents(policy, ingress, incidents, n - 1),
            incidents[n - 1],
        )
    }
}

/// The entry of a run that an incident adds, if any.
pub open spec fn kept_by(
    policy: LogPolicy,
    ingress: IngressView,
    incident: Incident,
    id: u128,
) -> Seq<RunLogView> {
    match incident {
        Incident::Noted { id: of, fields, time, bytes } => if of == id && hears(ingress, id)
            && keeps(policy, ingress, id, fields.overflow, bytes) {
            seq![entry_of(ingress, id, fields, time)]
        } else {
            Seq::empty()
        },
        _ => Seq::empty(),
    }
}

/// The entries of a run that an incident takes out.
pub open spec fn taken_by(ingress: IngressView, incident: Incident, id: u128) -> Seq<RunLogView> {
    match incident {
        Incident::Drained(of) => if of == id {
            drained_logs(ingress, id)
        } else {
            Seq::empty()
        },
        Incident::Sealed(of) => if of == id && ingress.runs.contains_key(id) {
            ingress.runs[id].queue
        } else {
            Seq::empty()
        },
        _ => Seq::empty(),
    }
}

/// The entries of a run that the first `n` incidents add, in order.
pub open spec fn kept_entries(
    policy: LogPolicy,
    ingress: IngressView,
    incidents: Seq<Incident>,
    id: u128,
    n: int,
) -> Seq<RunLogView>
    decreases n,
{
    if n <= 0 {
        Seq::empty()
    } else {
        let before = after_incidents(policy, ingress, incidents, n - 1);
        kept_entries(policy, ingress, incidents, id, n - 1) + kept_by(
            policy,
            before,
            incidents[n - 1],
            id,
        )
    }
}

/// The entries of a run that the first `n` incidents take out, in order.
pub open spec fn taken_entries(
    policy: LogPolicy,
    ingress: IngressView,
    incidents: Seq<Incident>,
    id: u128,
    n: int,
) -> Seq<RunLogView>
    decreases n,
{
    if n <= 0 {
        Seq::empty()
    } else {
        let before = after_incidents(policy, ingress, incidents, n - 1);
        taken_entries(policy, ingress, incidents, id, n - 1) + taken_by(
            before,
            incidents[n - 1],
            id,
        )
    }
}

/// Whether the buffer of a run is neither opened anew nor given up.
pub open spec fn keeps_buffer(incidents: Seq<Incident>, id: u128) -> bool {
    forall|i: int|
        0 <= i < incidents.len() ==> #[trigger] incidents[i] != Incident::Registered(id)
            && incidents[i] != Incident::Removed(id)
}

proof fn lemma_incident(policy: LogPolicy, ingress: IngressView, incident: Incident, id: u128)
    requires
        ingress.runs.contains_key(id),
        incident != Incident::Registered(id),
        incident != Incident::Removed(id),
    ensures
        ({
            let next = with_incident(policy, ingress, incident);
            let before = ingress.runs[id];
            let after = next.runs[id];
            &&& next.runs.contains_key(id)
            &&& before.queue + kept_by(policy, ingress, incident, id) == taken_by(
                ingress,
                incident,
                id,
            ) + after.queue
            &&& after.accepted == before.accepted + kept_by(policy, ingress, incident, id).len()
            &&& before.dropped <= before.sequence && after.sequence < u64::MAX ==> after.sequence
                - before.sequence == after.accepted - before.accepted + after.dropped
                - before.dropped
            &&& incident == Incident::Sealed(id) ==> after.queue.len() == 0
        }),
{
    let next = with_incident(policy, ingress, incident);
    let before = ingress.runs[id];
    let after = next.runs[id];
    let kept = kept_by(policy, ingress, incident, id);
    let taken = taken_by(ingress, incident, id);
    assert(before.queue + kept =~= taken + after.queue);
}

/// What is taken out of the buffer of a run, by drains and then by its seal, is every entry that
/// was kept since the buffer was opened, in order: what is not taken yet waits. The counters of the
/// buffer tell how many were kept and how many events were heard.
pub proof fn kept_entries_are_taken_in_order(
    policy: LogPolicy,
    before: IngressView,
    id: u128,
    incidents: Seq<Incident>,
    n: int,
)
    requires
        0 <= n <= incidents.len(),
        keeps_buffer(incidents, id),
    ensures
        ({
            let opened = with_registered(before, id);
            let now = after_incidents(policy, opened, incidents, n);
            let kept = kept_entries(policy, opened, incidents, id, n);
            let taken = taken_entries(policy, opened, incidents, id, n);
            &&& now.runs.contains_key(id)
            &&& kept == taken + now.runs[id].queue
            &&& n > 0 && incidents[n - 1] == Incident::Sealed(id) ==> kept == taken
            &&& now.runs[id].accepted == kept.len()
            &&& now.runs[id].sequence < u64::MAX ==> now.runs[id].sequence == kept.len()
                + now.runs[id].dropped
        }),
    decreases n,
{
    let opened = with_registered(before, id);
    let now = after_incidents(policy, opened, incidents, n);
    let kept = kept_entries(policy, opened, incidents, id, n);
    let taken = taken_entries(policy, opened, incidents, id, n);
    if n == 0 {
        assert(kept =~= taken + now.runs[id].queue);
    } else {
        kept_entries_are_taken_in_order(policy, before, id, incidents, n - 1);
        let earlier = after_incidents(policy, opened, incidents, n - 1);
        let incident = incidents[n - 1];
        lemma_incident(policy, earlier, incident, id);
        lemma_moved(
            kept_entries(policy, opened, incidents, id, n - 1),
            taken_entries(policy, opened, incidents, id, n - 1),
            earlier.runs[id].queue,
            kept_by(policy, earlier, incident, id),
            taken_by(earlier, incident, id),
            now.runs[id].queue,
        );
    }
}

proof fn lemma_moved(
    kept: Seq<RunLogView>,
    taken: Seq<RunLogView>,
    queue: Seq<RunLogView>,
    more: Seq<RunLogView>,
    out: Seq<RunLogView>,
    rest: Seq<RunLogView>,
)
    requires
        kept == taken + queue,
        queue + more == out + rest,
    ensures
        kept + more == taken + out + rest,
        rest.len() == 0 ==> taken + out + rest == taken + out,
{
    assert(taken + queue + more =~= taken + (queue + more));
    assert(taken + (out + rest) =~= taken + out + rest);
    if rest.len() == 0 {
        assert(taken + out + rest =~= taken + out);
    }
}

} // verus!
