//! The journal: what its tables hold, and what each write changes in them.

use vstd::prelude::*;
use crate::ids::RunId;
use crate::model::{
    bare_completion, log_views, Completion, Error, ErrorView, JobKey, Outcome, OutcomeView,
    RunLog, RunLogView, RunRecord, RunRecordView, RunState, RunStateView,
};
use crate::text::same_text;
use crate::time::Timestamp;

verus! {

/// What the tables of a journal hold: records, the index of jobs, logs, and the last admission
/// sequence.
#[verifier::ext_equal]
pub struct Ledger {
    pub runs: Map<u128, RunRecordView>,
    pub index: Set<(Seq<char>, u64, u128)>,
    pub logs: Map<(u128, u64), RunLogView>,
    pub sequence: u64,
}

impl Ledger {
    /// The index names every run once, under its job and its own admission sequence; sequences
    /// are given once and in order; logs belong to runs.
    pub open spec fn consistent(self) -> bool {
        &&& forall|id: u128| #[trigger]
            self.runs.contains_key(id) ==> self.runs[id].id == id && 0
                < self.runs[id].admission_sequence <= self.sequence
        &&& forall|job: Seq<char>, sequence: u64, id: u128| #[trigger]
            self.index.contains((job, sequence, id)) <==> self.runs.contains_key(id)
                && self.runs[id].job == job && self.runs[id].admission_sequence == sequence
        &&& forall|a: u128, b: u128| #[trigger]
            self.runs.contains_key(a) && #[trigger] self.runs.contains_key(b) && a != b
                ==> self.runs[a].admission_sequence != self.runs[b].admission_sequence
        &&& forall|id: u128, n: u64| #[trigger]
            self.logs.contains_key((id, n)) ==> self.runs.contains_key(id)
                && self.logs[(id, n)].run_id == id && self.logs[(id, n)].sequence == n
    }
}

/// The journal before anything was written.
pub open spec fn empty_ledger() -> Ledger {
    Ledger { runs: Map::empty(), index: Set::empty(), logs: Map::empty(), sequence: 0 }
}

/// A change of one row.
#[derive(Debug)]
pub enum Change {
    PutRun(RunRecord),
    PutIndex(JobKey, u64, RunId),
    PutSequence(u64),
    PutLog(RunLog),
    RemoveRun(RunId),
    RemoveIndex(JobKey, u64, RunId),
    RemoveLog(RunId, u64),
}

pub enum ChangeView {
    PutRun(RunRecordView),
    PutIndex(Seq<char>, u64, u128),
    PutSequence(u64),
    PutLog(RunLogView),
    RemoveRun(u128),
    RemoveIndex(Seq<char>, u64, u128),
    RemoveLog(u128, u64),
}

impl View for Change {
    type V = ChangeView;

    open spec fn view(&self) -> ChangeView {
        match self {
            Change::PutRun(record) => ChangeView::PutRun(record@),
            Change::PutIndex(job, sequence, id) => ChangeView::PutIndex(job@, *sequence, id@),
            Change::PutSequence(sequence) => ChangeView::PutSequence(*sequence),
            Change::PutLog(log) => ChangeView::PutLog(log@),
            Change::RemoveRun(id) => ChangeView::RemoveRun(id@),
            Change::RemoveIndex(job, sequence, id) => ChangeView::RemoveIndex(
                job@,
                *sequence,
                id@,
            ),
            Change::RemoveLog(id, sequence) => ChangeView::RemoveLog(id@, *sequence),
        }
    }
}

/// The contents of a list of changes.
pub open spec fn change_views(changes: Seq<Change>) -> Seq<ChangeView> {
    changes.map_values(|change: Change| change@)
}

/// The journal after a change.
pub open spec fn changed(ledger: Ledger, change: ChangeView) -> Ledger {
    match change {
        ChangeView::PutRun(record) => Ledger {
            runs: ledger.runs.insert(record.id, record),
            ..ledger
        },
        ChangeView::PutIndex(job, sequence, id) => Ledger {
            index: ledger.index.insert((job, sequence, id)),
            ..ledger
        },
        ChangeView::PutSequence(sequence) => Ledger { sequence, ..ledger },
        ChangeView::PutLog(log) => Ledger {
            logs: ledger.logs.insert((log.run_id, log.sequence), log),
            ..ledger
        },
        ChangeView::RemoveRun(id) => Ledger { runs: ledger.runs.remove(id), ..ledger },
        ChangeView::RemoveIndex(job, sequence, id) => Ledger {
            index: ledger.index.remove((job, sequence, id)),
            ..ledger
        },
        ChangeView::RemoveLog(id, sequence) => Ledger {
            logs: ledger.logs.remove((id, sequence)),
            ..ledger
        },
    }
}

/// The journal after all changes of a transaction.
pub open spec fn committed(ledger: Ledger, changes: Seq<ChangeView>) -> Ledger
    decreases changes.len(),
{
    if changes.len() == 0 {
        ledger
    } else {
        changed(committed(ledger, changes.drop_last()), changes.last())
    }
}

/// One more change at the end of a transaction.
pub proof fn lemma_committed_push(ledger: Ledger, changes: Seq<ChangeView>, change: ChangeView)
    ensures
        committed(ledger, changes.push(change)) == changed(committed(ledger, changes), change),
{
    assert(changes.push(change).drop_last() =~= changes);
}

/// Two transactions in a row change what one with the changes of both does.
pub proof fn lemma_committed_concat(ledger: Ledger, a: Seq<ChangeView>, b: Seq<ChangeView>)
    ensures
        committed(ledger, a + b) == committed(committed(ledger, a), b),
    decreases b.len(),
{
    if b.len() == 0 {
        assert(a + b =~= a);
    } else {
        assert((a + b).drop_last() =~= a + b.drop_last());
        assert((a + b).last() == b.last());
        lemma_committed_concat(ledger, a, b.drop_last());
    }
}

// ---- Calls ----

/// How a call to the journal ended.
#[derive(Debug)]
pub enum CallEnd<T> {
    /// The store answered.
    Answered(Result<T, Error>),
    /// The store panicked.
    Panicked,
    /// Nobody is left to answer.
    Closed,
    /// The time for an answer is over.
    Late,
}

/// Turns the end of a call into its result: a panic is a failure of the journal.
pub fn call_result<T>(end: CallEnd<T>) -> (result: Result<T, Error>)
    ensures
        match end {
            CallEnd::Answered(answer) => result == answer,
            CallEnd::Panicked => result matches Err(e) && e@ == ErrorView::Journal(
                "store_panicked"@,
            ),
            CallEnd::Closed => result matches Err(e) && e@ == ErrorView::Stopped,
            CallEnd::Late => result matches Err(e) && e@ == ErrorView::TimedOut,
        },
{
    match end {
        CallEnd::Answered(answer) => answer,
        CallEnd::Panicked => Err(Error::Journal("store_panicked".to_string())),
        CallEnd::Closed => Err(Error::Stopped),
        CallEnd::Late => Err(Error::TimedOut),
    }
}

// ---- Admission ----

/// What refuses an admission: the identifier is known, or the sequence is used up.
pub open spec fn record_fault(id: u128, known: bool, previous: u64) -> Option<ErrorView> {
    if known {
        Some(ErrorView::AlreadySubmitted(id))
    } else if previous == u64::MAX {
        Some(ErrorView::Journal("sequence exhausted"@))
    } else {
        None
    }
}

/// A record under the next admission sequence.
pub open spec fn sequenced(record: RunRecordView, previous: u64) -> RunRecordView {
    RunRecordView { admission_sequence: (previous + 1) as u64, ..record }
}

/// What an admission writes.
pub open spec fn admission_changes(record: RunRecordView) -> Seq<ChangeView> {
    seq![
        ChangeView::PutSequence(record.admission_sequence),
        ChangeView::PutRun(record),
        ChangeView::PutIndex(record.job, record.admission_sequence, record.id),
    ]
}

/// Decides the admission of a record, given whether its identifier is known and the last
/// admission sequence: the record with its sequence, and what to write.
pub fn admit_record(record: RunRecord, known: bool, previous: u64) -> (answer: Result<
    (RunRecord, Vec<Change>),
    Error,
>)
    ensures
        answer is Ok <==> record_fault(record@.id, known, previous) is None,
        answer matches Err(e) ==> record_fault(record@.id, known, previous) == Some(e@),
        answer matches Ok(saved) ==> saved.0@ == sequenced(record@, previous) && change_views(
            saved.1@,
        ) == admission_changes(saved.0@),
{
    if known {
        return Err(Error::AlreadySubmitted(record.id));
    }
    let sequence: u64 = match previous.checked_add(1) {
        Some(next) => next,
        None => {
            return Err(Error::Journal("sequence exhausted".to_string()));
        },
    };
    let mut record = record;
    record.admission_sequence = sequence;
    let mut changes: Vec<Change> = Vec::new();
    changes.push(Change::PutSequence(sequence));
    changes.push(Change::PutRun(record.clone()));
    changes.push(Change::PutIndex(record.job.clone(), sequence, record.id));
    assert(change_views(changes@) =~= admission_changes(record@));
    Ok((record, changes))
}

// ---- Logs and results ----

/// Whether every log is of a run.
pub open spec fn all_of(logs: Seq<RunLogView>, id: u128) -> bool {
    forall|i: int| 0 <= i < logs.len() ==> (#[trigger] logs[i]).run_id == id
}

/// What writing logs changes.
pub open spec fn log_changes(logs: Seq<RunLogView>) -> Seq<ChangeView> {
    logs.map_values(|log: RunLogView| ChangeView::PutLog(log))
}

/// What refuses a batch of logs: the run is not known or has its result, or a log is of another
/// run.
pub open spec fn append_fault(
    existing: Option<RunRecordView>,
    logs: Seq<RunLogView>,
) -> Option<ErrorView> {
    match existing {
        None => Some(ErrorView::NotFound),
        Some(record) => if record.terminal() {
            Some(ErrorView::Journal("run sealed"@))
        } else if !all_of(logs, record.id) {
            Some(ErrorView::Journal("wrong run log"@))
        } else {
            None
        },
    }
}

/// What refuses a result, in this order: it is none; the run is not known; the run has another
/// result; its job or sequence differ; a log is of another run.
pub open spec fn finish_fault(
    record: RunRecordView,
    existing: Option<RunRecordView>,
    logs: Seq<RunLogView>,
) -> Option<ErrorView> {
    if !record.terminal() {
        Some(ErrorView::Journal("missing completion"@))
    } else {
        match existing {
            None => Some(ErrorView::NotFound),
            Some(known) => if known.terminal() && known != record {
                Some(ErrorView::Journal("terminal result is immutable"@))
            } else if known.job != record.job || known.admission_sequence
                != record.admission_sequence {
                Some(ErrorView::Journal("run identity changed"@))
            } else if !all_of(logs, record.id) {
                Some(ErrorView::Journal("wrong run log"@))
            } else {
                None
            },
        }
    }
}

/// What writing a result changes.
pub open spec fn finish_changes(
    record: RunRecordView,
    logs: Seq<RunLogView>,
) -> Seq<ChangeView> {
    log_changes(logs).push(ChangeView::PutRun(record))
}

/// The contents of an optional record.
pub open spec fn known_view(record: Option<&RunRecord>) -> Option<RunRecordView> {
    match record {
        Some(r) => Some(r@),
        None => None,
    }
}

/// The changes of a batch of logs of one run.
fn put_logs(id: RunId, logs: &Vec<RunLog>) -> (changes: Result<Vec<Change>, Error>)
    ensures
        changes is Ok <==> all_of(log_views(logs@), id@),
        changes matches Ok(c) ==> change_views(c@) == log_changes(log_views(logs@)),
        changes matches Err(e) ==> e@ == ErrorView::Journal("wrong run log"@),
{
    let ghost views = log_views(logs@);
    let mut changes: Vec<Change> = Vec::new();
    let mut i: usize = 0;
    while i < logs.len()
        invariant
            i <= logs@.len(),
            views == log_views(logs@),
            changes@.len() == i,
            forall|j: int| 0 <= j < i ==> (#[trigger] views[j]).run_id == id@,
            forall|j: int| 0 <= j < i ==> (#[trigger] changes@[j])@ == ChangeView::PutLog(views[j]),
        decreases logs@.len() - i,
    {
        assert(views[i as int] == logs@[i as int]@);
        if logs[i].run_id.bits != id.bits {
            assert(views[i as int].run_id != id@);
            return Err(Error::Journal("wrong run log".to_string()));
        }
        changes.push(Change::PutLog(logs[i].clone()));
        i = i + 1;
    }
    assert(change_views(changes@) =~= log_changes(views));
    Ok(changes)
}

/// Decides a batch of logs, given the record that the journal has of the run.
pub fn append_logs(existing: Option<&RunRecord>, logs: &Vec<RunLog>) -> (changes: Result<
    Vec<Change>,
    Error,
>)
    ensures
        changes is Ok <==> append_fault(known_view(existing), log_views(logs@)) is None,
        changes matches Err(e) ==> append_fault(known_view(existing), log_views(logs@)) == Some(e@),
        changes matches Ok(c) ==> change_views(c@) == log_changes(log_views(logs@)),
{
    match existing {
        None => Err(Error::NotFound),
        Some(record) => {
            match record.completion() {
                Some(_) => Err(Error::Journal("run sealed".to_string())),
                None => put_logs(record.id, logs),
            }
        },
    }
}

/// Decides a result and the logs that go with it, given the record that the journal has of the
/// run.
pub fn finish_record(
    record: &RunRecord,
    existing: Option<&RunRecord>,
    logs: &Vec<RunLog>,
) -> (changes: Result<Vec<Change>, Error>)
    ensures
        changes is Ok <==> finish_fault(record@, known_view(existing), log_views(logs@)) is None,
        changes matches Err(e) ==> finish_fault(record@, known_view(existing), log_views(logs@))
            == Some(e@),
        changes matches Ok(c) ==> change_views(c@) == finish_changes(record@, log_views(logs@)),
{
    match record.completion() {
        None => {
            return Err(Error::Journal("missing completion".to_string()));
        },
        Some(_) => {},
    }
    match existing {
        None => Err(Error::NotFound),
        Some(known) => {
            let terminal = match known.completion() {
                Some(_) => true,
                None => false,
            };
            if terminal && *known != *record {
                return Err(Error::Journal("terminal result is immutable".to_string()));
            }
            if !same_text(known.job.as_str(), record.job.as_str()) || known.admission_sequence
                != record.admission_sequence {
                return Err(Error::Journal("run identity changed".to_string()));
            }
            match put_logs(record.id, logs) {
                Err(e) => Err(e),
                Ok(puts) => {
                    let mut changes = puts;
                    let ghost before = change_views(changes@);
                    changes.push(Change::PutRun(record.clone()));
                    assert(change_views(changes@) =~= before.push(ChangeView::PutRun(record@)));
                    Ok(changes)
                },
            }
        },
    }
}

// ---- Recovery ----

/// A log as the tables show it: its sequence number and its size.
#[derive(Debug, Clone, Copy, PartialEq, Eq, Structural)]
pub struct StoredLog {
    pub sequence: u64,
    pub bytes: usize,
}

/// A run as the tables show it: its record, the record's size, and its logs.
#[derive(Debug)]
pub struct StoredRun {
    pub record: RunRecord,
    pub bytes: usize,
    pub logs: Vec<StoredLog>,
}

pub struct StoredView {
    pub record: RunRecordView,
    pub bytes: usize,
    pub logs: Seq<StoredLog>,
}

impl View for StoredRun {
    type V = StoredView;

    open spec fn view(&self) -> StoredView {
        StoredView { record: self.record@, bytes: self.bytes, logs: self.logs@ }
    }
}

/// The contents of a list of stored runs.
pub open spec fn stored_views(rows: Seq<StoredRun>) -> Seq<StoredView> {
    rows.map_values(|row: StoredRun| row@)
}

/// The greatest sequence number of some logs, or a given one if it is greater.
pub open spec fn greatest(logs: Seq<StoredLog>, least: u64) -> u64
    decreases logs.len(),
{
    if logs.len() == 0 {
        least
    } else {
        let before = greatest(logs.drop_last(), least);
        if logs.last().sequence > before {
            logs.last().sequence
        } else {
            before
        }
    }
}

/// An unfinished run as recovery ends it: interrupted, with the logs that were committed.
pub open spec fn interrupted(row: StoredView, now: Timestamp) -> RunRecordView {
    RunRecordView {
        finished_at: Some(now),
        state: RunStateView::Finished(bare_completion(OutcomeView::Interrupted)),
        last_log_sequence: greatest(row.logs, row.record.last_log_sequence),
        ..row.record
    }
}

/// What recovery writes of the first `n` runs: only unfinished ones.
pub open spec fn recovery_changes(
    rows: Seq<StoredView>,
    n: nat,
    now: Timestamp,
) -> Seq<ChangeView>
    decreases n,
{
    if n == 0 {
        Seq::empty()
    } else {
        let before = recovery_changes(rows, (n - 1) as nat, now);
        if rows[n - 1].record.terminal() {
            before
        } else {
            before.push(ChangeView::PutRun(interrupted(rows[n - 1], now)))
        }
    }
}

/// Decides recovery: every run without a result is interrupted; nothing is run again.
pub fn recover(rows: &Vec<StoredRun>, now: Timestamp) -> (changes: Vec<Change>)
    ensures
        change_views(changes@) == recovery_changes(stored_views(rows@), rows@.len(), now),
{
    let ghost views = stored_views(rows@);
    let mut changes: Vec<Change> = Vec::new();
    let mut i: usize = 0;
    assert(change_views(changes@) =~= Seq::<ChangeView>::empty());
    while i < rows.len()
        invariant
            i <= rows@.len(),
            views == stored_views(rows@),
            change_views(changes@) == recovery_changes(views, i as nat, now),
        decreases rows@.len() - i,
    {
        let row = &rows[i];
        assert(views[i as int] == row@);
        let unfinished = match row.record.completion() {
            Some(_) => false,
            None => true,
        };
        if unfinished {
            let mut last: u64 = row.record.last_log_sequence;
            let mut k: usize = 0;
            assert(row.logs@.take(0) =~= Seq::<StoredLog>::empty());
            while k < row.logs.len()
                invariant
                    k <= row.logs@.len(),
                    last == greatest(row.logs@.take(k as int), row.record.last_log_sequence),
                decreases row.logs@.len() - k,
            {
                proof {
                    let more = row.logs@.take(k + 1);
                    assert(more.drop_last() =~= row.logs@.take(k as int));
                    assert(more.last() == row.logs@[k as int]);
                }
                if row.logs[k].sequence > last {
                    last = row.logs[k].sequence;
                }
                k = k + 1;
            }
            assert(row.logs@.take(k as int) =~= row.logs@);
            let mut record = row.record.clone();
            record.finished_at = Some(now);
            record.state = RunState::Finished(Completion::bare(Outcome::Interrupted));
            record.last_log_sequence = last;
            let ghost before = change_views(changes@);
            let ghost written = record@;
            assert(written == interrupted(row@, now));
            changes.push(Change::PutRun(record));
            assert(change_views(changes@) =~= before.push(ChangeView::PutRun(written)));
        }
        i = i + 1;
    }
    changes
}

// ---- Laws ----

/// The journal of a run, as a read of it shows.
pub open spec fn read(ledger: Ledger, id: u128) -> Option<RunRecordView> {
    if ledger.runs.contains_key(id) {
        Some(ledger.runs[id])
    } else {
        None
    }
}

/// The journal after an admission that was not refused.
pub open spec fn with_admission(ledger: Ledger, record: RunRecordView) -> Ledger {
    committed(ledger, admission_changes(sequenced(record, ledger.sequence)))
}

/// The journal after a batch of logs that was not refused.
pub open spec fn with_logs(ledger: Ledger, logs: Seq<RunLogView>) -> Ledger {
    committed(ledger, log_changes(logs))
}

/// The journal after a result that was not refused.
pub open spec fn with_result(
    ledger: Ledger,
    record: RunRecordView,
    logs: Seq<RunLogView>,
) -> Ledger {
    committed(ledger, finish_changes(record, logs))
}

/// The journal starts out consistent.
pub proof fn empty_journal_is_consistent()
    ensures
        empty_ledger().consistent(),
{
}

/// An admission gives the next sequence, can be read back, changes no other run and no log, and
/// keeps the journal consistent.
pub proof fn admission_is_written(ledger: Ledger, record: RunRecordView)
    requires
        ledger.consistent(),
        record_fault(record.id, ledger.runs.contains_key(record.id), ledger.sequence) is None,
    ensures
        ({
            let after = with_admission(ledger, record);
            &&& after.consistent()
            &&& after.sequence == ledger.sequence + 1
            &&& read(after, record.id) == Some(sequenced(record, ledger.sequence))
            &&& after.runs == ledger.runs.insert(record.id, sequenced(record, ledger.sequence))
            &&& after.logs == ledger.logs
            &&& after.index == ledger.index.insert(
                (record.job, (ledger.sequence + 1) as u64, record.id),
            )
        }),
{
    let saved = sequenced(record, ledger.sequence);
    let after = with_admission(ledger, record);
    let changes = admission_changes(saved);
    reveal_with_fuel(committed, 4);
    assert(changes.drop_last().drop_last().drop_last() =~= Seq::<ChangeView>::empty());
    assert(after.runs == ledger.runs.insert(record.id, saved));
    assert(after.index == ledger.index.insert((saved.job, saved.admission_sequence, saved.id)));
    assert forall|job: Seq<char>, sequence: u64, id: u128| #[trigger]
        after.index.contains((job, sequence, id)) <==> after.runs.contains_key(id)
            && after.runs[id].job == job && after.runs[id].admission_sequence == sequence by {
        if id == record.id {
            assert(!ledger.index.contains((job, sequence, id)));
        } else {
            assert(ledger.index.contains((job, sequence, id)) <==> ledger.runs.contains_key(id)
                && ledger.runs[id].job == job && ledger.runs[id].admission_sequence == sequence);
        }
    }
    assert forall|a: u128, b: u128| #[trigger]
        after.runs.contains_key(a) && #[trigger] after.runs.contains_key(b) && a
            != b implies after.runs[a].admission_sequence != after.runs[b].admission_sequence by {
        if a == record.id {
            assert(ledger.runs.contains_key(b));
        } else if b == record.id {
            assert(ledger.runs.contains_key(a));
        } else {
            assert(ledger.runs.contains_key(a) && ledger.runs.contains_key(b));
        }
    }
    assert forall|id: u128, n: u64| #[trigger]
        after.logs.contains_key((id, n)) implies after.runs.contains_key(id)
        && after.logs[(id, n)].run_id == id && after.logs[(id, n)].sequence == n by {
        assert(ledger.logs.contains_key((id, n)));
    }
    assert forall|id: u128| #[trigger] after.runs.contains_key(id) implies after.runs[id].id == id
        && 0 < after.runs[id].admission_sequence <= after.sequence by {
        if id != record.id {
            assert(ledger.runs.contains_key(id));
        }
    }
}

/// A journal that knows an identifier refuses it: a run is admitted once.
pub proof fn known_run_is_refused(ledger: Ledger, record: RunRecordView, again: RunRecordView)
    requires
        ledger.consistent(),
        record_fault(record.id, ledger.runs.contains_key(record.id), ledger.sequence) is None,
        again.id == record.id,
    ensures
        ({
            let after = with_admission(ledger, record);
            record_fault(again.id, after.runs.contains_key(again.id), after.sequence) == Some(
                ErrorView::AlreadySubmitted(again.id),
            )
        }),
{
    admission_is_written(ledger, record);
}

proof fn lemma_logs_written(ledger: Ledger, logs: Seq<RunLogView>)
    ensures
        ({
            let after = with_logs(ledger, logs);
            &&& after.runs == ledger.runs
            &&& after.index == ledger.index
            &&& after.sequence == ledger.sequence
            &&& forall|i: int|
                0 <= i < logs.len() ==> after.logs.contains_key(
                    ((#[trigger] logs[i]).run_id, logs[i].sequence),
                )
            &&& forall|key: (u128, u64)| #[trigger]
                after.logs.contains_key(key) ==> (exists|i: int|
                    0 <= i < logs.len() && #[trigger] logs[i] == after.logs[key] && (
                        logs[i].run_id,
                        logs[i].sequence,
                    ) == key) || (ledger.logs.contains_key(key) && after.logs[key]
                    == ledger.logs[key])
            &&& forall|key: (u128, u64)| #[trigger]
                ledger.logs.contains_key(key) ==> after.logs.contains_key(key)
        }),
    decreases logs.len(),
{
    if logs.len() > 0 {
        let fewer = logs.drop_last();
        lemma_logs_written(ledger, fewer);
        assert(log_changes(logs).drop_last() =~= log_changes(fewer));
        let before = with_logs(ledger, fewer);
        let after = with_logs(ledger, logs);
        let last = logs.last();
        assert(after == changed(before, ChangeView::PutLog(last)));
        assert forall|i: int| 0 <= i < logs.len() implies after.logs.contains_key(
            ((#[trigger] logs[i]).run_id, logs[i].sequence),
        ) by {
            if i < fewer.len() {
                assert(fewer[i] == logs[i]);
            }
        }
        assert forall|key: (u128, u64)| #[trigger] after.logs.contains_key(key) implies (exists|
            i: int,
        |
            0 <= i < logs.len() && #[trigger] logs[i] == after.logs[key] && (
                logs[i].run_id,
                logs[i].sequence,
            ) == key) || (ledger.logs.contains_key(key) && after.logs[key]
            == ledger.logs[key]) by {
            if key == (last.run_id, last.sequence) {
                assert(logs[logs.len() - 1] == after.logs[key]);
            } else {
                assert(before.logs.contains_key(key));
                if exists|i: int|
                    0 <= i < fewer.len() && #[trigger] fewer[i] == before.logs[key] && (
                        fewer[i].run_id,
                        fewer[i].sequence,
                    ) == key {
                    let i = choose|i: int|
                        0 <= i < fewer.len() && #[trigger] fewer[i] == before.logs[key] && (
                            fewer[i].run_id,
                            fewer[i].sequence,
                        ) == key;
                    assert(logs[i] == fewer[i]);
                }
            }
        }
    }
}

/// Whether a log is the last of its key in a batch.
pub open spec fn not_replaced(logs: Seq<RunLogView>, i: int) -> bool {
    forall|j: int| i < j < logs.len() ==> log_key(#[trigger] logs[j]) != log_key(logs[i])
}

/// A log that no later one of its batch replaces is what the journal then has under its key.
proof fn lemma_log_read_back(ledger: Ledger, logs: Seq<RunLogView>, i: int)
    requires
        0 <= i < logs.len(),
        not_replaced(logs, i),
    ensures
        with_logs(ledger, logs).logs.contains_key(log_key(logs[i])),
        with_logs(ledger, logs).logs[log_key(logs[i])] == logs[i],
    decreases logs.len(),
{
    let fewer = logs.drop_last();
    assert(log_changes(logs).drop_last() =~= log_changes(fewer));
    assert(with_logs(ledger, logs) == changed(
        with_logs(ledger, fewer),
        ChangeView::PutLog(logs.last()),
    ));
    if i < fewer.len() {
        assert(log_key(logs[logs.len() - 1]) != log_key(logs[i]));
        assert forall|j: int| i < j < fewer.len() implies log_key(#[trigger] fewer[j]) != log_key(
            fewer[i],
        ) by {
            assert(log_key(logs[j]) != log_key(logs[i]));
        }
        lemma_log_read_back(ledger, fewer, i);
    }
}

/// A batch of logs that is not refused can be read back. It changes neither records nor the
/// index, takes no log away, touches no other run's logs, and keeps the journal consistent.
pub proof fn logs_are_written(ledger: Ledger, id: u128, logs: Seq<RunLogView>)
    requires
        ledger.consistent(),
        append_fault(read(ledger, id), logs) is None,
    ensures
        ({
            let after = with_logs(ledger, logs);
            &&& after.consistent()
            &&& after.runs == ledger.runs
            &&& after.index == ledger.index
            &&& after.sequence == ledger.sequence
            &&& forall|i: int|
                0 <= i < logs.len() && not_replaced(logs, i) ==> after.logs.contains_key(
                    log_key(#[trigger] logs[i]),
                ) && after.logs[log_key(logs[i])] == logs[i]
            &&& forall|key: (u128, u64)| #[trigger]
                ledger.logs.contains_key(key) ==> after.logs.contains_key(key)
            &&& forall|other: u128, n: u64|
                other != id ==> (#[trigger] after.logs.contains_key((other, n))
                    == ledger.logs.contains_key((other, n))) && (ledger.logs.contains_key(
                    (other, n),
                ) ==> after.logs[(other, n)] == ledger.logs[(other, n)])
        }),
{
    lemma_logs_written(ledger, logs);
    lemma_logs_of_run(ledger, id, logs);
    assert forall|i: int| 0 <= i < logs.len() && not_replaced(logs, i) implies with_logs(
        ledger,
        logs,
    ).logs.contains_key(log_key(#[trigger] logs[i])) && with_logs(ledger, logs).logs[log_key(
        logs[i],
    )] == logs[i] by {
        lemma_log_read_back(ledger, logs, i);
    }
}

proof fn lemma_logs_of_run(ledger: Ledger, id: u128, logs: Seq<RunLogView>)
    requires
        ledger.consistent(),
        ledger.runs.contains_key(id),
        all_of(logs, id),
    ensures
        with_logs(ledger, logs).consistent(),
        forall|other: u128, n: u64|
            other != id ==> (#[trigger] with_logs(ledger, logs).logs.contains_key((other, n))
                == ledger.logs.contains_key((other, n))) && (ledger.logs.contains_key((other, n))
                ==> with_logs(ledger, logs).logs[(other, n)] == ledger.logs[(other, n)]),
{
    lemma_logs_written(ledger, logs);
    let after = with_logs(ledger, logs);
    assert forall|k: u128, n: u64| #[trigger]
        after.logs.contains_key((k, n)) implies after.runs.contains_key(k)
        && after.logs[(k, n)].run_id == k && after.logs[(k, n)].sequence == n by {
        if exists|i: int|
            0 <= i < logs.len() && #[trigger] logs[i] == after.logs[(k, n)] && (
                logs[i].run_id,
                logs[i].sequence,
            ) == (k, n) {
            let i = choose|i: int|
                0 <= i < logs.len() && #[trigger] logs[i] == after.logs[(k, n)] && (
                    logs[i].run_id,
                    logs[i].sequence,
                ) == (k, n);
            assert(logs[i].run_id == id);
        } else {
            assert(ledger.logs.contains_key((k, n)));
        }
    }
    assert forall|other: u128, n: u64| other != id implies (#[trigger] after.logs.contains_key(
        (other, n),
    ) == ledger.logs.contains_key((other, n))) && (ledger.logs.contains_key((other, n))
        ==> after.logs[(other, n)] == ledger.logs[(other, n)]) by {
        if after.logs.contains_key((other, n)) {
            if exists|i: int|
                0 <= i < logs.len() && #[trigger] logs[i] == after.logs[(other, n)] && (
                    logs[i].run_id,
                    logs[i].sequence,
                ) == (other, n) {
                let i = choose|i: int|
                    0 <= i < logs.len() && #[trigger] logs[i] == after.logs[(other, n)] && (
                        logs[i].run_id,
                        logs[i].sequence,
                    ) == (other, n);
                assert(logs[i].run_id == id);
            }
        }
    }
}

/// A result that is not refused can be read back with its logs, changes no other run, and keeps
/// the journal consistent.
pub proof fn result_is_written(ledger: Ledger, record: RunRecordView, logs: Seq<RunLogView>)
    requires
        ledger.consistent(),
        finish_fault(record, read(ledger, record.id), logs) is None,
    ensures
        ({
            let after = with_result(ledger, record, logs);
            &&& after.consistent()
            &&& read(after, record.id) == Some(record)
            &&& after.runs == ledger.runs.insert(record.id, record)
            &&& after.index == ledger.index
            &&& after.sequence == ledger.sequence
            &&& forall|i: int|
                0 <= i < logs.len() && not_replaced(logs, i) ==> after.logs.contains_key(
                    log_key(#[trigger] logs[i]),
                ) && after.logs[log_key(logs[i])] == logs[i]
        }),
{
    assert forall|i: int| 0 <= i < logs.len() && not_replaced(logs, i) implies with_logs(
        ledger,
        logs,
    ).logs.contains_key(log_key(#[trigger] logs[i])) && with_logs(ledger, logs).logs[log_key(
        logs[i],
    )] == logs[i] by {
        lemma_log_read_back(ledger, logs, i);
    }
    let written = with_logs(ledger, logs);
    let after = with_result(ledger, record, logs);
    lemma_committed_push(ledger, log_changes(logs), ChangeView::PutRun(record));
    lemma_logs_written(ledger, logs);
    lemma_logs_of_run(ledger, record.id, logs);
    assert(after.runs == ledger.runs.insert(record.id, record));
    assert forall|id: u128| #[trigger] after.runs.contains_key(id) implies after.runs[id].id == id
        && 0 < after.runs[id].admission_sequence <= after.sequence by {
        assert(ledger.runs.contains_key(id));
    }
    assert forall|job: Seq<char>, sequence: u64, id: u128| #[trigger]
        after.index.contains((job, sequence, id)) <==> after.runs.contains_key(id)
            && after.runs[id].job == job && after.runs[id].admission_sequence == sequence by {
        assert(ledger.index.contains((job, sequence, id)) <==> ledger.runs.contains_key(id)
            && ledger.runs[id].job == job && ledger.runs[id].admission_sequence == sequence);
    }
    assert forall|a: u128, b: u128| #[trigger]
        after.runs.contains_key(a) && #[trigger] after.runs.contains_key(b) && a
            != b implies after.runs[a].admission_sequence != after.runs[b].admission_sequence by {
        assert(ledger.runs.contains_key(a) && ledger.runs.contains_key(b));
    }
    assert forall|id: u128, n: u64| #[trigger]
        after.logs.contains_key((id, n)) implies after.runs.contains_key(id)
        && after.logs[(id, n)].run_id == id && after.logs[(id, n)].sequence == n by {
        assert(written.logs.contains_key((id, n)));
        assert(ledger.runs.contains_key(id));
    }
}

/// A result is immutable: once a run has one, no other is accepted, and the same one leaves the
/// record as it is.
pub proof fn result_is_immutable(
    ledger: Ledger,
    record: RunRecordView,
    logs: Seq<RunLogView>,
)
    requires
        ledger.consistent(),
        ledger.runs.contains_key(record.id),
        ledger.runs[record.id].terminal(),
    ensures
        finish_fault(record, read(ledger, record.id), logs) is None ==> with_result(
            ledger,
            record,
            logs,
        ).runs == ledger.runs,
        append_fault(read(ledger, record.id), logs) is Some,
{
    if finish_fault(record, read(ledger, record.id), logs) is None {
        result_is_written(ledger, record, logs);
        assert(with_result(ledger, record, logs).runs =~= ledger.runs);
    }
}

/// Writing a result again, as a retry does, is accepted.
pub proof fn result_can_be_written_again(
    ledger: Ledger,
    record: RunRecordView,
    logs: Seq<RunLogView>,
)
    requires
        ledger.consistent(),
        finish_fault(record, read(ledger, record.id), logs) is None,
    ensures
        ({
            let once = with_result(ledger, record, logs);
            let twice = with_result(once, record, logs);
            &&& finish_fault(record, read(once, record.id), logs) is None
            &&& twice.runs == once.runs
            &&& twice.index == once.index
            &&& twice.sequence == once.sequence
            &&& twice.logs == once.logs
        }),
{
    result_is_written(ledger, record, logs);
    let once = with_result(ledger, record, logs);
    result_is_written(once, record, logs);
    let twice = with_result(once, record, logs);
    assert(twice.runs =~= once.runs);
    lemma_committed_push(ledger, log_changes(logs), ChangeView::PutRun(record));
    lemma_committed_push(once, log_changes(logs), ChangeView::PutRun(record));
    lemma_logs_twice(ledger, once, logs);
    assert(twice.logs =~= once.logs);
}

/// A written result never changes: it can be read back, writing it again is accepted and changes
/// nothing, and neither another result nor more logs of the run are accepted.
pub proof fn terminal_result_never_changes(
    ledger: Ledger,
    record: RunRecordView,
    logs: Seq<RunLogView>,
    other: RunRecordView,
    more: Seq<RunLogView>,
)
    requires
        ledger.consistent(),
        finish_fault(record, read(ledger, record.id), logs) is None,
        other.id == record.id,
        other != record,
    ensures
        ({
            let after = with_result(ledger, record, logs);
            &&& read(after, record.id) == Some(record)
            &&& finish_fault(record, read(after, record.id), logs) is None
            &&& with_result(after, record, logs) == after
            &&& finish_fault(other, read(after, record.id), more) is Some
            &&& append_fault(read(after, record.id), more) is Some
        }),
{
    result_is_written(ledger, record, logs);
    result_can_be_written_again(ledger, record, logs);
    let after = with_result(ledger, record, logs);
    assert(with_result(after, record, logs) =~= after);
}

/// Two batches in a row leave what one with the logs of both leaves.
pub proof fn batches_add_up(ledger: Ledger, first: Seq<RunLogView>, second: Seq<RunLogView>)
    ensures
        with_logs(with_logs(ledger, first), second) == with_logs(ledger, first + second),
{
    lemma_committed_concat(ledger, log_changes(first), log_changes(second));
    assert(log_changes(first + second) =~= log_changes(first) + log_changes(second));
}

/// The logs of confirmed batches and those that come with the result can all be read back once the
/// result is written: each is what the journal has under its key, unless a later one replaced it.
pub proof fn written_logs_come_with_the_result(
    ledger: Ledger,
    record: RunRecordView,
    batches: Seq<RunLogView>,
    rest: Seq<RunLogView>,
    i: int,
)
    requires
        ledger.consistent(),
        append_fault(read(ledger, record.id), batches) is None,
        finish_fault(record, read(with_logs(ledger, batches), record.id), rest) is None,
        0 <= i < (batches + rest).len(),
        not_replaced(batches + rest, i),
    ensures
        ({
            let after = with_result(with_logs(ledger, batches), record, rest);
            let log = (batches + rest)[i];
            &&& after.consistent()
            &&& read(after, record.id) == Some(record)
            &&& after.logs.contains_key(log_key(log))
            &&& after.logs[log_key(log)] == log
        }),
{
    let held = with_logs(ledger, batches);
    logs_are_written(ledger, record.id, batches);
    result_is_written(held, record, rest);
    batches_add_up(ledger, batches, rest);
    lemma_log_read_back(ledger, batches + rest, i);
    lemma_committed_push(held, log_changes(rest), ChangeView::PutRun(record));
}

/// Where the same logs were written last, writing them again changes nothing of the logs.
proof fn lemma_logs_twice(ledger: Ledger, once: Ledger, logs: Seq<RunLogView>)
    requires
        once.logs == with_logs(ledger, logs).logs,
    ensures
        with_logs(once, logs).logs == once.logs,
{
    lemma_last_wins(ledger, logs);
    lemma_last_wins(once, logs);
    lemma_logs_written(ledger, logs);
    lemma_logs_written(once, logs);
    let twice = with_logs(once, logs);
    assert forall|key: (u128, u64)| twice.logs.contains_key(key) == once.logs.contains_key(key)
        && (once.logs.contains_key(key) ==> twice.logs[key] == once.logs[key]) by {
        if names(logs, key) {
            let i = choose|i: int| 0 <= i < logs.len() && log_key(#[trigger] logs[i]) == key;
            assert(twice.logs.contains_key((logs[i].run_id, logs[i].sequence)));
            assert(once.logs.contains_key((logs[i].run_id, logs[i].sequence)));
        }
    }
    assert(twice.logs =~= once.logs);
}

/// The key under which a log is kept.
pub open spec fn log_key(log: RunLogView) -> (u128, u64) {
    (log.run_id, log.sequence)
}

/// Whether some log has a key.
spec fn names(logs: Seq<RunLogView>, key: (u128, u64)) -> bool {
    exists|i: int| 0 <= i < logs.len() && log_key(#[trigger] logs[i]) == key
}

/// The last log with a key.
spec fn last_with(logs: Seq<RunLogView>, key: (u128, u64)) -> RunLogView
    decreases logs.len(),
{
    if logs.len() == 0 || log_key(logs.last()) == key {
        logs.last()
    } else {
        last_with(logs.drop_last(), key)
    }
}

/// Of several logs with one key, the last is kept, and other keys keep what they had.
proof fn lemma_last_wins(ledger: Ledger, logs: Seq<RunLogView>)
    ensures
        forall|key: (u128, u64)|
            names(logs, key) ==> #[trigger] with_logs(ledger, logs).logs[key] == last_with(
                logs,
                key,
            ),
        forall|key: (u128, u64)|
            !names(logs, key) ==> (#[trigger] with_logs(ledger, logs).logs.contains_key(key)
                == ledger.logs.contains_key(key)) && with_logs(ledger, logs).logs[key]
                == ledger.logs[key],
    decreases logs.len(),
{
    if logs.len() > 0 {
        let fewer = logs.drop_last();
        lemma_last_wins(ledger, fewer);
        assert(log_changes(logs).drop_last() =~= log_changes(fewer));
        let before = with_logs(ledger, fewer);
        let after = with_logs(ledger, logs);
        assert(after == changed(before, ChangeView::PutLog(logs.last())));
        assert forall|key: (u128, u64)| names(logs, key) && log_key(logs.last())
            != key implies names(fewer, key) by {
            let i = choose|i: int| 0 <= i < logs.len() && log_key(#[trigger] logs[i]) == key;
            assert(fewer[i] == logs[i]);
        }
        assert forall|key: (u128, u64)| names(logs, key) implies #[trigger] after.logs[key]
            == last_with(logs, key) by {
            if log_key(logs.last()) != key {
                assert(names(fewer, key));
                assert(before.logs[key] == last_with(fewer, key));
            }
        }
        assert forall|key: (u128, u64)| !names(logs, key) implies (
        #[trigger] after.logs.contains_key(key) == ledger.logs.contains_key(key))
            && after.logs[key] == ledger.logs[key] by {
            assert(log_key(logs[logs.len() - 1]) != key);
            if names(fewer, key) {
                let i = choose|i: int| 0 <= i < fewer.len() && log_key(#[trigger] fewer[i]) == key;
                assert(logs[i] == fewer[i]);
            }
            assert(before.logs.contains_key(key) == ledger.logs.contains_key(key));
        }
    }
}

/// Whether rows show the runs of a journal: every run once, with its record and the sequence
/// numbers of its logs.
pub open spec fn shows_runs(rows: Seq<StoredView>, ledger: Ledger) -> bool {
    &&& forall|i: int|
        0 <= i < rows.len() ==> ledger.runs.contains_key((#[trigger] rows[i]).record.id)
            && ledger.runs[rows[i].record.id] == rows[i].record
    &&& forall|i: int, j: int|
        0 <= i < j < rows.len() ==> (#[trigger] rows[i]).record.id != (
        #[trigger] rows[j]).record.id
    &&& forall|id: u128| #[trigger]
        ledger.runs.contains_key(id) ==> exists|i: int|
            0 <= i < rows.len() && (#[trigger] rows[i]).record.id == id
    &&& forall|i: int, n: u64|
        0 <= i < rows.len() ==> (#[trigger] ledger.logs.contains_key((rows[i].record.id, n))
            <==> exists|k: int|
            0 <= k < rows[i].logs.len() && (#[trigger] rows[i].logs[k]).sequence == n)
}

/// The journal after recovery from rows.
pub open spec fn with_recovery(ledger: Ledger, rows: Seq<StoredView>, now: Timestamp) -> Ledger {
    committed(ledger, recovery_changes(rows, rows.len(), now))
}

proof fn lemma_recovered(ledger: Ledger, rows: Seq<StoredView>, n: nat, now: Timestamp)
    requires
        n <= rows.len(),
        forall|i: int, j: int|
            0 <= i < j < rows.len() ==> (#[trigger] rows[i]).record.id != (
            #[trigger] rows[j]).record.id,
    ensures
        ({
            let after = committed(ledger, recovery_changes(rows, n, now));
            &&& after.index == ledger.index
            &&& after.logs == ledger.logs
            &&& after.sequence == ledger.sequence
            &&& forall|i: int|
                0 <= i < n && !(#[trigger] rows[i]).record.terminal() ==> after.runs.contains_key(
                    rows[i].record.id,
                ) && after.runs[rows[i].record.id] == interrupted(rows[i], now)
            &&& forall|id: u128|
                (forall|i: int|
                    0 <= i < n && !(#[trigger] rows[i]).record.terminal() ==> rows[i].record.id
                        != id) ==> (#[trigger] after.runs.contains_key(id)
                    == ledger.runs.contains_key(id)) && after.runs[id] == ledger.runs[id]
        }),
    decreases n,
{
    if n > 0 {
        let m = (n - 1) as nat;
        lemma_recovered(ledger, rows, m, now);
        let before = committed(ledger, recovery_changes(rows, m, now));
        let after = committed(ledger, recovery_changes(rows, n, now));
        let row = rows[n - 1];
        if !row.record.terminal() {
            lemma_committed_push(
                ledger,
                recovery_changes(rows, m, now),
                ChangeView::PutRun(interrupted(row, now)),
            );
        }
        assert forall|id: u128|
            (forall|i: int|
                0 <= i < n && !(#[trigger] rows[i]).record.terminal() ==> rows[i].record.id
                    != id) implies (#[trigger] after.runs.contains_key(id)
            == ledger.runs.contains_key(id)) && after.runs[id] == ledger.runs[id] by {
            assert(forall|i: int|
                0 <= i < m && !(#[trigger] rows[i]).record.terminal() ==> rows[i].record.id != id);
            assert(before.runs.contains_key(id) == ledger.runs.contains_key(id));
            if !row.record.terminal() {
                assert(rows[n - 1].record.id != id);
            }
        }
        assert forall|i: int|
            0 <= i < n && !(#[trigger] rows[i]).record.terminal() implies after.runs.contains_key(
            rows[i].record.id,
        ) && after.runs[rows[i].record.id] == interrupted(rows[i], now) by {
            if i < n - 1 {
                assert(rows[i].record.id != rows[n - 1].record.id);
            }
        }
    }
}

/// Recovery gives every unfinished run an interrupted result and leaves finished runs, the index
/// and committed logs as they are. It runs nothing again, and it keeps the journal consistent.
pub proof fn recovery_interrupts_unfinished_runs(
    ledger: Ledger,
    rows: Seq<StoredView>,
    now: Timestamp,
)
    requires
        ledger.consistent(),
        shows_runs(rows, ledger),
    ensures
        ({
            let after = with_recovery(ledger, rows, now);
            &&& after.consistent()
            &&& after.runs.dom() == ledger.runs.dom()
            &&& after.logs == ledger.logs
            &&& after.index == ledger.index
            &&& after.sequence == ledger.sequence
            &&& forall|id: u128| #[trigger]
                after.runs.contains_key(id) ==> after.runs[id].terminal()
            &&& forall|id: u128| #[trigger]
                after.runs.contains_key(id) && ledger.runs[id].terminal() ==> after.runs[id]
                    == ledger.runs[id]
            &&& forall|i: int|
                0 <= i < rows.len() && !(#[trigger] rows[i]).record.terminal()
                    ==> after.runs.contains_key(rows[i].record.id)
                    && after.runs[rows[i].record.id] == interrupted(rows[i], now)
        }),
{
    lemma_recovered(ledger, rows, rows.len(), now);
    let after = with_recovery(ledger, rows, now);
    assert forall|id: u128| #[trigger] after.runs.contains_key(id) == ledger.runs.contains_key(
        id,
    ) && (ledger.runs.contains_key(id) ==> {
        &&& after.runs[id].terminal()
        &&& ledger.runs[id].terminal() ==> after.runs[id] == ledger.runs[id]
        &&& !ledger.runs[id].terminal() ==> after.runs[id].completion() == Some(
            bare_completion(OutcomeView::Interrupted),
        )
        &&& after.runs[id].job == ledger.runs[id].job
        &&& after.runs[id].id == ledger.runs[id].id
        &&& after.runs[id].admission_sequence == ledger.runs[id].admission_sequence
    }) by {
        if ledger.runs.contains_key(id) {
            let i = choose|i: int| 0 <= i < rows.len() && (#[trigger] rows[i]).record.id == id;
            assert(ledger.runs[rows[i].record.id] == rows[i].record);
            if ledger.runs[id].terminal() {
                assert forall|k: int|
                    0 <= k < rows.len()
                        && !(#[trigger] rows[k]).record.terminal() implies rows[k].record.id
                    != id by {
                    assert(ledger.runs[rows[k].record.id] == rows[k].record);
                }
                assert(after.runs.contains_key(id) == ledger.runs.contains_key(id));
            }
        } else {
            assert forall|k: int|
                0 <= k < rows.len() && !(
                #[trigger] rows[k]).record.terminal() implies rows[k].record.id != id by {
                assert(ledger.runs.contains_key(rows[k].record.id));
            }
            assert(after.runs.contains_key(id) == ledger.runs.contains_key(id));
        }
    }
    assert(after.runs.dom() =~= ledger.runs.dom());
    assert forall|a: u128, b: u128| #[trigger]
        after.runs.contains_key(a) && #[trigger] after.runs.contains_key(b) && a
            != b implies after.runs[a].admission_sequence != after.runs[b].admission_sequence by {
        assert(ledger.runs.contains_key(a) && ledger.runs.contains_key(b));
    }
    assert forall|job: Seq<char>, sequence: u64, id: u128| #[trigger]
        after.index.contains((job, sequence, id)) <==> after.runs.contains_key(id)
            && after.runs[id].job == job && after.runs[id].admission_sequence == sequence by {
        assert(ledger.index.contains((job, sequence, id)) <==> ledger.runs.contains_key(id)
            && ledger.runs[id].job == job && ledger.runs[id].admission_sequence == sequence);
        assert(after.runs.contains_key(id) == ledger.runs.contains_key(id));
    }
    assert forall|id: u128, n: u64| #[trigger]
        after.logs.contains_key((id, n)) implies after.runs.contains_key(id)
        && after.logs[(id, n)].run_id == id && after.logs[(id, n)].sequence == n by {
        assert(ledger.logs.contains_key((id, n)));
        assert(after.runs.contains_key(id) == ledger.runs.contains_key(id));
    }
    assert forall|id: u128| #[trigger] after.runs.contains_key(id) implies after.runs[id].id == id
        && 0 < after.runs[id].admission_sequence <= after.sequence by {
        assert(ledger.runs.contains_key(id));
    }
}

/// What recovery writes is nothing where every run has a result.
proof fn lemma_nothing_to_recover(rows: Seq<StoredView>, n: nat, now: Timestamp)
    requires
        n <= rows.len(),
        forall|i: int| 0 <= i < rows.len() ==> (#[trigger] rows[i]).record.terminal(),
    ensures
        recovery_changes(rows, n, now) == Seq::<ChangeView>::empty(),
    decreases n,
{
    if n > 0 {
        lemma_nothing_to_recover(rows, (n - 1) as nat, now);
        assert(rows[n - 1].record.terminal());
    }
}

/// Recovering again, at whatever time, changes nothing.
pub proof fn recovering_again_changes_nothing(
    ledger: Ledger,
    rows: Seq<StoredView>,
    again: Seq<StoredView>,
    now: Timestamp,
    later: Timestamp,
)
    requires
        ledger.consistent(),
        shows_runs(rows, ledger),
        shows_runs(again, with_recovery(ledger, rows, now)),
    ensures
        recovery_changes(again, again.len(), later) == Seq::<ChangeView>::empty(),
        with_recovery(with_recovery(ledger, rows, now), again, later) == with_recovery(
            ledger,
            rows,
            now,
        ),
{
    let after = with_recovery(ledger, rows, now);
    recovery_interrupts_unfinished_runs(ledger, rows, now);
    assert forall|i: int| 0 <= i < again.len() implies (#[trigger] again[i]).record.terminal() by {
        assert(after.runs.contains_key(again[i].record.id));
    }
    lemma_nothing_to_recover(again, again.len(), later);
}

/// The last log sequence of a recovered run covers every log that was committed.
pub proof fn recovery_counts_committed_logs(row: StoredView, now: Timestamp, k: int)
    requires
        0 <= k < row.logs.len(),
    ensures
        interrupted(row, now).last_log_sequence >= row.logs[k].sequence,
        interrupted(row, now).last_log_sequence >= row.record.last_log_sequence,
{
    lemma_greatest(row.logs, row.record.last_log_sequence, k);
}

proof fn lemma_greatest(logs: Seq<StoredLog>, least: u64, k: int)
    requires
        0 <= k < logs.len(),
    ensures
        greatest(logs, least) >= logs[k].sequence,
        greatest(logs, least) >= least,
    decreases logs.len(),
{
    if logs.len() > 1 {
        let fewer = logs.drop_last();
        if k < fewer.len() {
            lemma_greatest(fewer, least, k);
        } else {
            lemma_greatest(fewer, least, 0);
        }
    } else {
        reveal_with_fuel(greatest, 2);
    }
}

} // verus!
