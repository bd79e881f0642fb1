//! Retention: which finished runs are kept, newest first, and what removing the others changes.

use vstd::prelude::*;
use crate::journal::{
    change_views, changed, committed, lemma_committed_concat, shows_runs, stored_views, Change,
    ChangeView, Ledger, StoredLog, StoredRun, StoredView,
};
use crate::model::{Retention, RunRecordView};
use crate::sorted::SortedMap;
use crate::time::Timestamp;

verus! {

/// The size of some logs.
pub open spec fn logs_size(logs: Seq<StoredLog>) -> nat
    decreases logs.len(),
{
    if logs.len() == 0 {
        0
    } else {
        logs_size(logs.drop_last()) + logs.last().bytes as nat
    }
}

impl StoredView {
    /// The size of a run: its record and its logs.
    pub open spec fn size(self) -> nat {
        self.bytes as nat + logs_size(self.logs)
    }

    /// The instant from which the age of a finished run counts.
    pub open spec fn finished(self) -> Timestamp {
        match self.record.finished_at {
            Some(at) => at,
            None => self.record.admitted_at,
        }
    }
}

/// The size of some runs.
pub open spec fn total(rows: Seq<StoredView>) -> nat
    decreases rows.len(),
{
    if rows.len() == 0 {
        0
    } else {
        total(rows.drop_last()) + rows.last().size()
    }
}

/// How many of some runs are of a job.
pub open spec fn count_job(rows: Seq<StoredView>, job: Seq<char>) -> nat
    decreases rows.len(),
{
    if rows.len() == 0 {
        0
    } else {
        count_job(rows.drop_last(), job) + if rows.last().record.job == job {
            1nat
        } else {
            0nat
        }
    }
}

/// Runs ordered by falling admission sequence, with one more in its place: behind those with the
/// same sequence.
pub open spec fn placed_newest_first(rows: Seq<StoredView>, row: StoredView) -> Seq<StoredView>
    decreases rows.len(),
{
    if rows.len() == 0 || rows.last().record.admission_sequence >= row.record.admission_sequence {
        rows.push(row)
    } else {
        placed_newest_first(rows.drop_last(), row).push(rows.last())
    }
}

/// The finished among the first `n` runs, the newest admission first.
pub open spec fn newest_first(rows: Seq<StoredView>, n: nat) -> Seq<StoredView>
    decreases n,
{
    if n == 0 {
        Seq::empty()
    } else {
        let before = newest_first(rows, (n - 1) as nat);
        if rows[n - 1].record.terminal() {
            placed_newest_first(before, rows[n - 1])
        } else {
            before
        }
    }
}

/// Whether a finished run can be kept beside those that are kept already: it is not too old, and
/// neither its job, nor all runs, nor their size are over the limit.
pub open spec fn can_keep(
    kept: Seq<StoredView>,
    row: StoredView,
    now: Timestamp,
    retention: Retention,
) -> bool {
    &&& now.since(row.finished()) <= retention.age.nanos
    &&& count_job(kept, row.record.job) < retention.per_job
    &&& kept.len() < retention.runs
    &&& total(kept) + row.size() <= retention.bytes
}

/// Which of the first `n` runs are kept, looking at one after the other.
pub open spec fn kept_of(
    order: Seq<StoredView>,
    n: nat,
    now: Timestamp,
    retention: Retention,
) -> Seq<StoredView>
    decreases n,
{
    if n == 0 {
        Seq::empty()
    } else {
        let kept = kept_of(order, (n - 1) as nat, now, retention);
        if can_keep(kept, order[n - 1], now, retention) {
            kept.push(order[n - 1])
        } else {
            kept
        }
    }
}

/// What removing a run changes: its record, its place in the index, and its logs.
pub open spec fn removal(row: StoredView) -> Seq<ChangeView> {
    seq![
        ChangeView::RemoveRun(row.record.id),
        ChangeView::RemoveIndex(row.record.job, row.record.admission_sequence, row.record.id),
    ] + row.logs.map_values(
        |log: StoredLog| ChangeView::RemoveLog(row.record.id, log.sequence),
    )
}

/// What retention changes, looking at the first `n` runs one after the other.
pub open spec fn removals(
    order: Seq<StoredView>,
    n: nat,
    now: Timestamp,
    retention: Retention,
) -> Seq<ChangeView>
    decreases n,
{
    if n == 0 {
        Seq::empty()
    } else {
        let before = removals(order, (n - 1) as nat, now, retention);
        let kept = kept_of(order, (n - 1) as nat, now, retention);
        if can_keep(kept, order[n - 1], now, retention) {
            before
        } else {
            before + removal(order[n - 1])
        }
    }
}

/// What retention changes in the tables that rows show.
pub open spec fn pruning(
    rows: Seq<StoredView>,
    now: Timestamp,
    retention: Retention,
) -> Seq<ChangeView> {
    let order = newest_first(rows, rows.len());
    removals(order, order.len(), now, retention)
}

/// A number of runs of a job.
#[derive(Debug, Clone, Copy, PartialEq, Eq, Structural)]
pub struct Tally {
    pub runs: usize,
}

impl View for Tally {
    type V = nat;

    open spec fn view(&self) -> nat {
        self.runs as nat
    }
}

/// The runs at some positions.
spec fn rows_at(rows: Seq<StoredView>, order: Seq<usize>) -> Seq<StoredView> {
    order.map_values(|i: usize| rows[i as int])
}

/// Puts a position in its place among others.
fn place_newest_first(rows: &Vec<StoredRun>, order: &mut Vec<usize>, row: usize)
    requires
        row < rows@.len(),
        forall|k: int| 0 <= k < old(order)@.len() ==> #[trigger] old(order)@[k] < rows@.len(),
    ensures
        rows_at(stored_views(rows@), final(order)@) == placed_newest_first(
            rows_at(stored_views(rows@), old(order)@),
            stored_views(rows@)[row as int],
        ),
        forall|k: int| 0 <= k < final(order)@.len() ==> #[trigger] final(order)@[k] < rows@.len(),
        final(order)@.len() == old(order)@.len() + 1,
{
    let ghost views = stored_views(rows@);
    let ghost before = rows_at(views, order@);
    let ghost new = views[row as int];
    let mut at: usize = order.len();
    let sequence: u64 = rows[row].record.admission_sequence;
    assert(before.take(at as int) =~= before);
    assert(before.skip(at as int) =~= Seq::<StoredView>::empty());
    assert(placed_newest_first(before, new) =~= placed_newest_first(before.take(at as int), new)
        + before.skip(at as int));
    while at > 0 && rows[order[at - 1]].record.admission_sequence < sequence
        invariant
            row < rows@.len(),
            at <= order@.len(),
            views == stored_views(rows@),
            before == rows_at(views, order@),
            new == views[row as int],
            sequence == new.record.admission_sequence,
            forall|k: int| 0 <= k < order@.len() ==> #[trigger] order@[k] < rows@.len(),
            placed_newest_first(before, new) == placed_newest_first(before.take(at as int), new)
                + before.skip(at as int),
        decreases at,
    {
        proof {
            let part = before.take(at as int);
            assert(part.last() == before[at - 1]);
            assert(before[at - 1] == views[order@[at - 1] as int]);
            assert(part.drop_last() =~= before.take(at - 1));
            assert(placed_newest_first(part, new) == placed_newest_first(
                before.take(at - 1),
                new,
            ).push(before[at - 1]));
            assert(placed_newest_first(before.take(at - 1), new).push(before[at - 1])
                + before.skip(at as int) =~= placed_newest_first(before.take(at - 1), new)
                + before.skip(at - 1));
        }
        at = at - 1;
    }
    let ghost old_order = order@;
    order.insert(at, row);
    proof {
        let part = before.take(at as int);
        if at > 0 {
            assert(part.last() == before[at - 1]);
            assert(before[at - 1] == views[old_order[at - 1] as int]);
        }
        assert(placed_newest_first(part, new) == part.push(new));
        assert(order@ == old_order.insert(at as int, row));
        assert(rows_at(views, order@) =~= part.push(new) + before.skip(at as int));
    }
}

/// The size of a run.
fn row_size(row: &StoredRun) -> (size: u128)
    ensures
        size == row@.size(),
        size <= u128::MAX - usize::MAX,
{
    let mut size: u128 = row.bytes as u128;
    let mut i: usize = 0;
    let count: usize = row.logs.len();
    assert(row.logs@.take(0) =~= Seq::<StoredLog>::empty());
    while i < count
        invariant
            i <= count,
            count == row.logs@.len(),
            size == row.bytes as nat + logs_size(row.logs@.take(i as int)),
            size <= (i + 1) * usize::MAX,
        decreases count - i,
    {
        proof {
            let more = row.logs@.take(i + 1);
            assert(more.drop_last() =~= row.logs@.take(i as int));
            assert(more.last() == row.logs@[i as int]);
            assert((i + 2) * usize::MAX == (i + 1) * usize::MAX + usize::MAX) by (nonlinear_arith);
            assert((i + 2) * usize::MAX <= (usize::MAX + 1) * usize::MAX) by (nonlinear_arith)
                requires
                    i + 1 <= usize::MAX,
            ;
            lemma_square();
        }
        size = size + row.logs[i].bytes as u128;
        i = i + 1;
    }
    proof {
        assert(row.logs@.take(i as int) =~= row.logs@);
        assert((i + 1) * usize::MAX <= (usize::MAX + 1) * usize::MAX) by (nonlinear_arith)
            requires
                i <= usize::MAX,
        ;
        lemma_square();
    }
    size
}

proof fn lemma_square()
    ensures
        (usize::MAX + 1) * usize::MAX <= u128::MAX - usize::MAX,
{
    assert((usize::MAX + 1) * usize::MAX <= 0x1_0000_0000_0000_0000 * 0xffff_ffff_ffff_ffff)
        by (nonlinear_arith)
        requires
            usize::MAX <= 0xffff_ffff_ffff_ffff,
    ;
}

/// The changes that remove a run, behind others.
fn remove_row(changes: &mut Vec<Change>, row: &StoredRun)
    ensures
        change_views(final(changes)@) == change_views(old(changes)@) + removal(row@),
{
    let ghost before = change_views(changes@);
    changes.push(Change::RemoveRun(row.record.id));
    changes.push(
        Change::RemoveIndex(
            row.record.job.clone(),
            row.record.admission_sequence,
            row.record.id,
        ),
    );
    let ghost start = changes@;
    let mut i: usize = 0;
    while i < row.logs.len()
        invariant
            i <= row.logs@.len(),
            changes@.len() == start.len() + i,
            changes@.take(start.len() as int) == start,
            forall|k: int|
                0 <= k < i ==> (#[trigger] changes@[start.len() + k])@ == ChangeView::RemoveLog(
                    row.record.id@,
                    row.logs@[k].sequence,
                ),
        decreases row.logs@.len() - i,
    {
        let ghost held = changes@;
        changes.push(Change::RemoveLog(row.record.id, row.logs[i].sequence));
        assert(changes@.take(start.len() as int) =~= held.take(start.len() as int));
        assert forall|k: int| 0 <= k < i + 1 implies (#[trigger] changes@[start.len() + k])@
            == ChangeView::RemoveLog(row.record.id@, row.logs@[k].sequence) by {
            if k < i {
                assert(changes@[start.len() + k] == held[start.len() + k]);
            }
        }
        i = i + 1;
    }
    proof {
        let after = change_views(changes@);
        let expected = before + removal(row@);
        assert(after.len() == expected.len());
        assert forall|k: int| 0 <= k < after.len() implies after[k] == expected[k] by {
            if k < start.len() {
                assert(changes@.take(start.len() as int)[k] == changes@[k]);
                assert(changes@[k] == start[k]);
            } else {
                let j = k - start.len();
                assert(changes@[start.len() + j]@ == ChangeView::RemoveLog(
                    row.record.id@,
                    row.logs@[j].sequence,
                ));
            }
        }
        assert(after =~= expected);
    }
}

/// Decides retention over the stored runs: what to remove, so that finished runs stay within
/// their age, their number for each job, their number, and their size, the newest first.
pub fn prune(rows: &Vec<StoredRun>, now: Timestamp, retention: &Retention) -> (changes: Vec<
    Change,
>)
    requires
        now.representable(),
        forall|i: int| 0 <= i < rows@.len() ==> (#[trigger] rows@[i]).record@.dated(),
    ensures
        change_views(changes@) == pruning(stored_views(rows@), now, *retention),
{
    let ghost views = stored_views(rows@);
    let mut order: Vec<usize> = Vec::new();
    let mut i: usize = 0;
    assert(rows_at(views, order@) =~= Seq::<StoredView>::empty());
    while i < rows.len()
        invariant
            i <= rows@.len(),
            views == stored_views(rows@),
            forall|k: int| 0 <= k < order@.len() ==> #[trigger] order@[k] < rows@.len(),
            order@.len() <= i,
            rows_at(views, order@) == newest_first(views, i as nat),
        decreases rows@.len() - i,
    {
        assert(views[i as int] == rows@[i as int]@);
        match rows[i].record.completion() {
            Some(_) => {
                place_newest_first(rows, &mut order, i);
            },
            None => {},
        }
        i = i + 1;
    }
    let ghost sorted = rows_at(views, order@);
    let mut changes: Vec<Change> = Vec::new();
    let mut tallies: SortedMap<String, Tally> = SortedMap::new();
    let mut runs: usize = 0;
    let mut bytes: u128 = 0;
    let mut n: usize = 0;
    let ghost mut kept: Seq<StoredView> = Seq::empty();
    assert(change_views(changes@) =~= Seq::<ChangeView>::empty());
    while n < order.len()
        invariant
            n <= order@.len(),
            views == stored_views(rows@),
            sorted == rows_at(views, order@),
            sorted == newest_first(views, rows@.len()),
            forall|k: int| 0 <= k < order@.len() ==> #[trigger] order@[k] < rows@.len(),
            now.representable(),
            forall|k: int| 0 <= k < rows@.len() ==> (#[trigger] rows@[k]).record@.dated(),
            kept == kept_of(sorted, n as nat, now, *retention),
            change_views(changes@) == removals(sorted, n as nat, now, *retention),
            tallies.wf(),
            forall|job: Seq<char>|
                #![trigger tallies@.contains_key(job)]
                #![trigger count_job(kept, job)]
                count_job(kept, job) == if tallies@.contains_key(job) {
                    tallies@[job]
                } else {
                    0
                },
            runs == kept.len(),
            runs <= retention.runs,
            bytes == total(kept),
            bytes <= retention.bytes,
        decreases order@.len() - n,
    {
        let row = &rows[order[n]];
        assert(sorted[n as int] == row@);
        let size: u128 = row_size(row);
        let since = match row.record.finished_at {
            Some(at) => at,
            None => row.record.admitted_at,
        };
        let age = now.span_since(since);
        let count: usize = match tallies.get(&row.record.job) {
            Some(tally) => tally.runs,
            None => 0,
        };
        assert(count == count_job(kept, row@.record.job));
        if age.nanos > retention.age.nanos || count >= retention.per_job || runs >= retention.runs
            || bytes + size > retention.bytes as u128 {
            remove_row(&mut changes, row);
        } else {
            let ghost before = tallies@;
            let ghost more = kept.push(row@);
            tallies.insert(row.record.job.clone(), Tally { runs: count + 1 });
            runs = runs + 1;
            bytes = bytes + size;
            proof {
                assert(more.drop_last() =~= kept);
                assert forall|job: Seq<char>|
                    #![trigger tallies@.contains_key(job)]
                    #![trigger count_job(more, job)]
                    count_job(more, job) == if tallies@.contains_key(job) {
                        tallies@[job]
                    } else {
                        0
                    } by {
                    assert(count_job(kept, job) == if before.contains_key(job) {
                        before[job]
                    } else {
                        0
                    });
                }
                kept = more;
            }
        }
        n = n + 1;
    }
    changes
}

// ---- Laws ----

/// What is kept stays within every limit: the age of each run, the number of runs of each job,
/// the number of runs, and their size.
pub proof fn retention_limits_hold(
    order: Seq<StoredView>,
    n: nat,
    now: Timestamp,
    retention: Retention,
    job: Seq<char>,
    i: int,
)
    requires
        n <= order.len(),
    ensures
        ({
            let kept = kept_of(order, n, now, retention);
            &&& kept.len() <= retention.runs
            &&& total(kept) <= retention.bytes
            &&& count_job(kept, job) <= retention.per_job
            &&& 0 <= i < kept.len() ==> now.since(kept[i].finished()) <= retention.age.nanos
        }),
    decreases n,
{
    if n > 0 {
        let m = (n - 1) as nat;
        retention_limits_hold(order, m, now, retention, job, i);
        let kept = kept_of(order, m, now, retention);
        assert(kept.push(order[n - 1]).drop_last() =~= kept);
    }
}

/// Fewer runs have no more of a job and no greater size than what they are taken from.
proof fn lemma_kept_bounds(
    order: Seq<StoredView>,
    n: nat,
    now: Timestamp,
    retention: Retention,
    job: Seq<char>,
)
    requires
        n <= order.len(),
    ensures
        ({
            let kept = kept_of(order, n, now, retention);
            &&& kept.len() <= n
            &&& count_job(kept, job) <= count_job(order.take(n as int), job)
            &&& total(kept) <= total(order.take(n as int))
        }),
    decreases n,
{
    if n > 0 {
        let m = (n - 1) as nat;
        lemma_kept_bounds(order, m, now, retention, job);
        let kept = kept_of(order, m, now, retention);
        assert(kept.push(order[n - 1]).drop_last() =~= kept);
        assert(order.take(n as int).drop_last() =~= order.take(m as int));
        assert(order.take(n as int).last() == order[n - 1]);
    }
}

/// A finished run is kept if it is not too old and, counted with all newer ones, its job, the
/// number of runs and their size are within the limits: the newest are kept.
pub proof fn newest_runs_are_kept(
    order: Seq<StoredView>,
    i: int,
    now: Timestamp,
    retention: Retention,
)
    requires
        0 <= i < order.len(),
        now.since(order[i].finished()) <= retention.age.nanos,
        count_job(order.take(i), order[i].record.job) < retention.per_job,
        i < retention.runs,
        total(order.take(i + 1)) <= retention.bytes,
    ensures
        can_keep(kept_of(order, i as nat, now, retention), order[i], now, retention),
{
    lemma_kept_bounds(order, i as nat, now, retention, order[i].record.job);
    assert(order.take(i + 1).drop_last() =~= order.take(i));
    assert(order.take(i + 1).last() == order[i]);
}

/// Whether admission sequences fall along a sequence of runs.
pub open spec fn falling(rows: Seq<StoredView>) -> bool {
    forall|i: int, j: int|
        0 <= i < j < rows.len() ==> (#[trigger] rows[i]).record.admission_sequence >= (
        #[trigger] rows[j]).record.admission_sequence
}

proof fn lemma_placed(rows: Seq<StoredView>, row: StoredView)
    requires
        falling(rows),
    ensures
        ({
            let after = placed_newest_first(rows, row);
            &&& falling(after)
            &&& after.len() == rows.len() + 1
            &&& forall|x: StoredView| #[trigger] after.contains(x) <==> x == row || rows.contains(x)
        }),
    decreases rows.len(),
{
    let after = placed_newest_first(rows, row);
    if rows.len() == 0 || rows.last().record.admission_sequence >= row.record.admission_sequence {
        assert forall|x: StoredView| #[trigger] after.contains(x) <==> x == row || rows.contains(
            x,
        ) by {
            lemma_push_contains(rows, row, x);
        }
        assert forall|i: int, j: int| 0 <= i < j < after.len() implies (
        #[trigger] after[i]).record.admission_sequence >= (
        #[trigger] after[j]).record.admission_sequence by {
            if j == rows.len() && i < rows.len() - 1 {
                assert(rows[i].record.admission_sequence >= rows[rows.len()
                    - 1].record.admission_sequence);
            }
        }
    } else {
        let fewer = rows.drop_last();
        lemma_placed(fewer, row);
        let before = placed_newest_first(fewer, row);
        assert forall|x: StoredView| #[trigger] after.contains(x) <==> x == row || rows.contains(
            x,
        ) by {
            lemma_push_contains(before, rows.last(), x);
            lemma_push_contains(fewer, rows.last(), x);
            assert(fewer.push(rows.last()) =~= rows);
            assert(before.contains(x) <==> x == row || fewer.contains(x));
        }
        assert forall|i: int, j: int| 0 <= i < j < after.len() implies (
        #[trigger] after[i]).record.admission_sequence >= (
        #[trigger] after[j]).record.admission_sequence by {
            if j == before.len() {
                assert(before.contains(before[i]));
                if before[i] != row {
                    assert(fewer.contains(before[i]));
                    let k = choose|k: int| 0 <= k < fewer.len() && fewer[k] == before[i];
                    assert(rows[k].record.admission_sequence >= rows[rows.len()
                        - 1].record.admission_sequence);
                }
            } else {
                assert(after[i] == before[i] && after[j] == before[j]);
            }
        }
    }
}

proof fn lemma_push_contains(rows: Seq<StoredView>, row: StoredView, x: StoredView)
    ensures
        rows.push(row).contains(x) <==> x == row || rows.contains(x),
{
    let more = rows.push(row);
    assert(more[rows.len() as int] == row);
    if rows.contains(x) {
        let k = choose|k: int| 0 <= k < rows.len() && rows[k] == x;
        assert(more[k] == x);
    }
    if more.contains(x) && x != row {
        let k = choose|k: int| 0 <= k < more.len() && more[k] == x;
        assert(rows[k] == x);
    }
}

/// Retention looks at the finished runs and at no others, the newest admission first, whatever
/// the clock said when they were admitted.
pub proof fn finished_runs_are_ordered(rows: Seq<StoredView>, n: nat)
    requires
        n <= rows.len(),
    ensures
        ({
            let order = newest_first(rows, n);
            &&& falling(order)
            &&& forall|x: StoredView| #[trigger]
                order.contains(x) <==> x.record.terminal() && rows.take(n as int).contains(x)
        }),
    decreases n,
{
    let order = newest_first(rows, n);
    if n > 0 {
        let m = (n - 1) as nat;
        finished_runs_are_ordered(rows, m);
        let before = newest_first(rows, m);
        assert(rows.take(n as int) =~= rows.take(m as int).push(rows[n - 1]));
        if rows[n - 1].record.terminal() {
            lemma_placed(before, rows[n - 1]);
        }
        assert forall|x: StoredView| #[trigger] order.contains(x) <==> x.record.terminal()
            && rows.take(n as int).contains(x) by {
            lemma_push_contains(rows.take(m as int), rows[n - 1], x);
            assert(before.contains(x) <==> x.record.terminal() && rows.take(m as int).contains(x));
        }
    } else {
        assert forall|x: StoredView| #[trigger] order.contains(x) <==> x.record.terminal()
            && rows.take(n as int).contains(x) by {
            assert(order.len() == 0);
            assert(rows.take(0).len() == 0);
        }
    }
}

/// The journal without some runs: neither their records, nor their places in the index, nor
/// their logs are left.
pub open spec fn without(ledger: Ledger, ids: Set<u128>) -> Ledger {
    Ledger {
        runs: ledger.runs.remove_keys(ids),
        index: ledger.index.filter(|entry: (Seq<char>, u64, u128)| !ids.contains(entry.2)),
        logs: Map::new(
            |key: (u128, u64)| ledger.logs.contains_key(key) && !ids.contains(key.0),
            |key: (u128, u64)| ledger.logs[key],
        ),
        sequence: ledger.sequence,
    }
}

/// Removing logs of a run.
proof fn lemma_logs_removed(ledger: Ledger, id: u128, logs: Seq<StoredLog>)
    ensures
        ({
            let changes = logs.map_values(
                |log: StoredLog| ChangeView::RemoveLog(id, log.sequence),
            );
            let after = committed(ledger, changes);
            &&& after.runs == ledger.runs
            &&& after.index == ledger.index
            &&& after.sequence == ledger.sequence
            &&& forall|key: (u128, u64)| #[trigger]
                after.logs.contains_key(key) <==> ledger.logs.contains_key(key) && !(key.0 == id
                    && exists|k: int| 0 <= k < logs.len() && (#[trigger] logs[k]).sequence == key.1)
            &&& forall|key: (u128, u64)| #[trigger]
                after.logs.contains_key(key) ==> after.logs[key] == ledger.logs[key]
        }),
    decreases logs.len(),
{
    let changes = logs.map_values(|log: StoredLog| ChangeView::RemoveLog(id, log.sequence));
    if logs.len() > 0 {
        let fewer = logs.drop_last();
        let some = fewer.map_values(|log: StoredLog| ChangeView::RemoveLog(id, log.sequence));
        lemma_logs_removed(ledger, id, fewer);
        assert(changes.drop_last() =~= some);
        assert(changes.last() == ChangeView::RemoveLog(id, logs.last().sequence));
        let before = committed(ledger, some);
        let after = committed(ledger, changes);
        assert(after == changed(before, changes.last()));
        assert forall|key: (u128, u64)| #[trigger]
            after.logs.contains_key(key) <==> ledger.logs.contains_key(key) && !(key.0 == id
                && exists|k: int| 0 <= k < logs.len() && (#[trigger] logs[k]).sequence
                == key.1) by {
            assert(before.logs.contains_key(key) <==> ledger.logs.contains_key(key) && !(key.0
                == id && exists|k: int|
                0 <= k < fewer.len() && (#[trigger] fewer[k]).sequence == key.1));
            if exists|k: int| 0 <= k < logs.len() && (#[trigger] logs[k]).sequence == key.1 {
                let k = choose|k: int| 0 <= k < logs.len() && (#[trigger] logs[k]).sequence
                    == key.1;
                if k < fewer.len() {
                    assert(fewer[k].sequence == key.1);
                }
            }
            if exists|k: int| 0 <= k < fewer.len() && (#[trigger] fewer[k]).sequence == key.1 {
                let k = choose|k: int| 0 <= k < fewer.len() && (#[trigger] fewer[k]).sequence
                    == key.1;
                assert(logs[k].sequence == key.1);
            }
            assert(logs[logs.len() - 1].sequence == logs.last().sequence);
        }
        assert forall|key: (u128, u64)| #[trigger]
            after.logs.contains_key(key) implies after.logs[key] == ledger.logs[key] by {
            assert(before.logs.contains_key(key));
        }
    }
}

/// Whether a row shows a run of a journal and all its logs.
spec fn shows_run(row: StoredView, ledger: Ledger) -> bool {
    &&& ledger.runs.contains_key(row.record.id)
    &&& ledger.runs[row.record.id] == row.record
    &&& forall|n: u64| #[trigger]
        ledger.logs.contains_key((row.record.id, n)) <==> exists|k: int|
            0 <= k < row.logs.len() && (#[trigger] row.logs[k]).sequence == n
}

proof fn lemma_row_removed(ledger: Ledger, ids: Set<u128>, row: StoredView)
    requires
        ledger.consistent(),
        shows_run(row, ledger),
    ensures
        committed(without(ledger, ids), removal(row)) == without(
            ledger,
            ids.insert(row.record.id),
        ),
{
    let id = row.record.id;
    let base = without(ledger, ids);
    let head = seq![
        ChangeView::RemoveRun(id),
        ChangeView::RemoveIndex(row.record.job, row.record.admission_sequence, id),
    ];
    let tail = row.logs.map_values(|log: StoredLog| ChangeView::RemoveLog(id, log.sequence));
    lemma_committed_concat(base, head, tail);
    assert(removal(row) =~= head + tail);
    reveal_with_fuel(committed, 3);
    assert(head.drop_last().drop_last() =~= Seq::<ChangeView>::empty());
    let cut = committed(base, head);
    assert(cut.runs == base.runs.remove(id));
    assert(cut.index == base.index.remove((row.record.job, row.record.admission_sequence, id)));
    assert(cut.logs == base.logs && cut.sequence == base.sequence);
    lemma_logs_removed(cut, id, row.logs);
    let after = committed(cut, tail);
    let expected = without(ledger, ids.insert(id));
    assert(after.runs =~= expected.runs);
    assert forall|entry: (Seq<char>, u64, u128)| #[trigger] after.index.contains(entry)
        <==> expected.index.contains(entry) by {
        assert(ledger.index.contains((entry.0, entry.1, entry.2)) <==> ledger.runs.contains_key(
            entry.2,
        ) && ledger.runs[entry.2].job == entry.0 && ledger.runs[entry.2].admission_sequence
            == entry.1);
    }
    assert(after.index =~= expected.index);
    assert forall|key: (u128, u64)| #[trigger] after.logs.contains_key(key)
        <==> expected.logs.contains_key(key) by {
        if key.0 == id {
            assert(ledger.logs.contains_key((id, key.1)) <==> exists|k: int|
                0 <= k < row.logs.len() && (#[trigger] row.logs[k]).sequence == key.1);
        }
    }
    assert(after.logs =~= expected.logs);
    assert(after =~= expected);
}

/// The runs that retention removes, looking at the first `n`.
pub open spec fn removed_ids(
    order: Seq<StoredView>,
    n: nat,
    now: Timestamp,
    retention: Retention,
) -> Set<u128>
    decreases n,
{
    if n == 0 {
        Set::empty()
    } else {
        let before = removed_ids(order, (n - 1) as nat, now, retention);
        let kept = kept_of(order, (n - 1) as nat, now, retention);
        if can_keep(kept, order[n - 1], now, retention) {
            before
        } else {
            before.insert(order[n - 1].record.id)
        }
    }
}

proof fn lemma_removals(
    ledger: Ledger,
    order: Seq<StoredView>,
    n: nat,
    now: Timestamp,
    retention: Retention,
)
    requires
        ledger.consistent(),
        n <= order.len(),
        forall|i: int| 0 <= i < order.len() ==> shows_run(#[trigger] order[i], ledger),
    ensures
        committed(ledger, removals(order, n, now, retention)) == without(
            ledger,
            removed_ids(order, n, now, retention),
        ),
        forall|id: u128| #[trigger]
            removed_ids(order, n, now, retention).contains(id) ==> exists|i: int|
                0 <= i < n && (#[trigger] order[i]).record.id == id,
    decreases n,
{
    let ids = removed_ids(order, n, now, retention);
    if n == 0 {
        assert(without(ledger, ids).runs =~= ledger.runs);
        assert(without(ledger, ids).index =~= ledger.index);
        assert(without(ledger, ids).logs =~= ledger.logs);
        assert(without(ledger, ids) =~= ledger);
    } else {
        let m = (n - 1) as nat;
        lemma_removals(ledger, order, m, now, retention);
        let kept = kept_of(order, m, now, retention);
        let before = removed_ids(order, m, now, retention);
        if !can_keep(kept, order[n - 1], now, retention) {
            lemma_committed_concat(
                ledger,
                removals(order, m, now, retention),
                removal(order[n - 1]),
            );
            lemma_row_removed(ledger, before, order[n - 1]);
        }
        assert forall|id: u128| #[trigger] ids.contains(id) implies exists|i: int|
            0 <= i < n && (#[trigger] order[i]).record.id == id by {
            if before.contains(id) {
                let i = choose|i: int| 0 <= i < m && (#[trigger] order[i]).record.id == id;
                assert(order[i].record.id == id);
            } else {
                assert(order[n - 1].record.id == id);
            }
        }
    }
}

/// The journal after retention was applied to what rows show of it.
pub open spec fn with_pruning(
    ledger: Ledger,
    rows: Seq<StoredView>,
    now: Timestamp,
    retention: Retention,
) -> Ledger {
    committed(ledger, pruning(rows, now, retention))
}

/// Retention removes runs whole, with their places in the index and their logs, and no run that
/// has no result; what stays is unchanged, the sequence goes on, and the journal stays
/// consistent.
pub proof fn retention_removes_whole_finished_runs(
    ledger: Ledger,
    rows: Seq<StoredView>,
    now: Timestamp,
    retention: Retention,
)
    requires
        ledger.consistent(),
        shows_runs(rows, ledger),
    ensures
        ({
            let order = newest_first(rows, rows.len());
            let gone = removed_ids(order, order.len(), now, retention);
            let after = with_pruning(ledger, rows, now, retention);
            &&& after == without(ledger, gone)
            &&& after.consistent()
            &&& after.sequence == ledger.sequence
            &&& forall|id: u128| #[trigger]
                gone.contains(id) ==> ledger.runs.contains_key(id) && ledger.runs[id].terminal()
            &&& forall|id: u128| #[trigger]
                ledger.runs.contains_key(id) && !ledger.runs[id].terminal()
                    ==> after.runs.contains_key(id) && after.runs[id] == ledger.runs[id]
        }),
{
    let order = newest_first(rows, rows.len());
    let gone = removed_ids(order, order.len(), now, retention);
    let after = with_pruning(ledger, rows, now, retention);
    finished_runs_are_ordered(rows, rows.len());
    assert(rows.take(rows.len() as int) =~= rows);
    assert forall|i: int| 0 <= i < order.len() implies shows_run(#[trigger] order[i], ledger)
        && order[i].record.terminal() by {
        assert(order.contains(order[i]));
        assert(rows.contains(order[i]));
        let k = choose|k: int| 0 <= k < rows.len() && rows[k] == order[i];
        assert(ledger.runs.contains_key(rows[k].record.id));
        assert forall|n: u64| #[trigger]
            ledger.logs.contains_key((order[i].record.id, n)) <==> exists|j: int|
                0 <= j < order[i].logs.len() && (#[trigger] order[i].logs[j]).sequence == n by {
            assert(ledger.logs.contains_key((rows[k].record.id, n)) <==> exists|j: int|
                0 <= j < rows[k].logs.len() && (#[trigger] rows[k].logs[j]).sequence == n);
        }
    }
    lemma_removals(ledger, order, order.len(), now, retention);
    assert forall|id: u128| #[trigger] gone.contains(id) implies ledger.runs.contains_key(id)
        && ledger.runs[id].terminal() by {
        let i = choose|i: int| 0 <= i < order.len() && (#[trigger] order[i]).record.id == id;
        assert(shows_run(order[i], ledger));
    }
    lemma_without_consistent(ledger, gone);
}

proof fn lemma_without_consistent(ledger: Ledger, gone: Set<u128>)
    requires
        ledger.consistent(),
    ensures
        without(ledger, gone).consistent(),
{
    let after = without(ledger, gone);
    assert forall|id: u128| #[trigger] after.runs.contains_key(id) implies after.runs[id].id == id
        && 0 < after.runs[id].admission_sequence <= after.sequence by {
        assert(ledger.runs.contains_key(id));
    }
    assert forall|job: Seq<char>, sequence: u64, id: u128| #[trigger]
        after.index.contains((job, sequence, id)) <==> after.runs.contains_key(id)
            && after.runs[id].job == job && after.runs[id].admission_sequence == sequence by {
        assert(ledger.index.contains((job, sequence, id)) <==> ledger.runs.contains_key(id)
            && ledger.runs[id].job == job && ledger.runs[id].admission_sequence == sequence);
    }
    assert forall|a: u128, b: u128| #[trigger]
        after.runs.contains_key(a) && #[trigger] after.runs.contains_key(b) && a
            != b implies after.runs[a].admission_sequence != after.runs[b].admission_sequence by {
        assert(ledger.runs.contains_key(a) && ledger.runs.contains_key(b));
    }
    assert forall|id: u128, n: u64| #[trigger]
        after.logs.contains_key((id, n)) implies after.runs.contains_key(id)
        && after.logs[(id, n)].run_id == id && after.logs[(id, n)].sequence == n by {
        assert(ledger.logs.contains_key((id, n)));
    }
}

/// Whether no two rows are of the same run.
pub open spec fn distinct_runs(rows: Seq<StoredView>) -> bool {
    forall|i: int, j: int|
        0 <= i < j < rows.len() ==> (#[trigger] rows[i]).record.id != (
        #[trigger] rows[j]).record.id
}

proof fn lemma_placed_distinct(rows: Seq<StoredView>, row: StoredView)
    requires
        distinct_runs(rows),
        forall|i: int| 0 <= i < rows.len() ==> (#[trigger] rows[i]).record.id != row.record.id,
    ensures
        distinct_runs(placed_newest_first(rows, row)),
        forall|i: int|
            0 <= i < placed_newest_first(rows, row).len() ==> (#[trigger] placed_newest_first(
                rows,
                row,
            )[i]) == row || rows.contains(placed_newest_first(rows, row)[i]),
    decreases rows.len(),
{
    let after = placed_newest_first(rows, row);
    if rows.len() == 0 || rows.last().record.admission_sequence >= row.record.admission_sequence {
        assert forall|i: int| 0 <= i < after.len() implies (#[trigger] after[i]) == row
            || rows.contains(after[i]) by {
            if i < rows.len() {
                assert(after[i] == rows[i]);
            }
        }
    } else {
        let fewer = rows.drop_last();
        let before = placed_newest_first(fewer, row);
        lemma_placed_distinct(fewer, row);
        assert forall|i: int| 0 <= i < after.len() implies (#[trigger] after[i]) == row
            || rows.contains(after[i]) by {
            if i < before.len() {
                assert(after[i] == before[i]);
                if before[i] != row {
                    let k = choose|k: int| 0 <= k < fewer.len() && fewer[k] == before[i];
                    assert(rows[k] == after[i]);
                }
            } else {
                assert(rows[rows.len() - 1] == after[i]);
            }
        }
        assert forall|i: int, j: int| 0 <= i < j < after.len() implies (
        #[trigger] after[i]).record.id != (#[trigger] after[j]).record.id by {
            assert(after[i] == before[i]);
            if j < before.len() {
                assert(after[j] == before[j]);
            } else if before[i] != row {
                assert(fewer.contains(before[i]));
                let k = choose|k: int| 0 <= k < fewer.len() && fewer[k] == before[i];
                assert(rows[k].record.id != rows[rows.len() - 1].record.id);
            }
        }
    }
}

proof fn lemma_order_distinct(rows: Seq<StoredView>, n: nat)
    requires
        n <= rows.len(),
        distinct_runs(rows),
    ensures
        distinct_runs(newest_first(rows, n)),
    decreases n,
{
    if n > 0 {
        let m = (n - 1) as nat;
        lemma_order_distinct(rows, m);
        finished_runs_are_ordered(rows, m);
        let before = newest_first(rows, m);
        if rows[n - 1].record.terminal() {
            assert forall|i: int| 0 <= i < before.len() implies (#[trigger] before[i]).record.id
                != rows[n - 1].record.id by {
                assert(before.contains(before[i]));
                let k = choose|k: int|
                    0 <= k < rows.take(m as int).len() && rows.take(m as int)[k] == before[i];
                assert(rows[k] == before[i]);
            }
            lemma_placed_distinct(before, rows[n - 1]);
        }
    }
}

proof fn lemma_removed_exactly(
    order: Seq<StoredView>,
    n: nat,
    now: Timestamp,
    retention: Retention,
    i: int,
)
    requires
        n <= order.len(),
        distinct_runs(order),
        0 <= i < n,
    ensures
        removed_ids(order, n, now, retention).contains(order[i].record.id) <==> !can_keep(
            kept_of(order, i as nat, now, retention),
            order[i],
            now,
            retention,
        ),
    decreases n,
{
    let m = (n - 1) as nat;
    if i < m {
        lemma_removed_exactly(order, m, now, retention, i);
        assert(order[i].record.id != order[n - 1].record.id);
    } else {
        lemma_removed_from(order, m, now, retention, order[i].record.id);
        if removed_ids(order, m, now, retention).contains(order[i].record.id) {
            let k = choose|k: int|
                0 <= k < m && (#[trigger] order[k]).record.id == order[i].record.id;
            assert(order[k].record.id != order[n - 1].record.id);
        }
    }
}

proof fn lemma_removed_from(
    order: Seq<StoredView>,
    n: nat,
    now: Timestamp,
    retention: Retention,
    id: u128,
)
    requires
        n <= order.len(),
    ensures
        removed_ids(order, n, now, retention).contains(id) ==> exists|k: int|
            0 <= k < n && (#[trigger] order[k]).record.id == id,
    decreases n,
{
    if n > 0 {
        let m = (n - 1) as nat;
        lemma_removed_from(order, m, now, retention, id);
        if removed_ids(order, n, now, retention).contains(id) {
            if removed_ids(order, m, now, retention).contains(id) {
                let k = choose|k: int| 0 <= k < m && (#[trigger] order[k]).record.id == id;
                assert(order[k].record.id == id);
            } else {
                assert(order[n - 1].record.id == id);
            }
        }
    }
}

/// A finished run stays in the journal exactly if it can be kept beside the newer ones that are.
pub proof fn finished_run_stays_if_kept(
    ledger: Ledger,
    rows: Seq<StoredView>,
    now: Timestamp,
    retention: Retention,
    i: int,
)
    requires
        ledger.consistent(),
        shows_runs(rows, ledger),
        0 <= i < newest_first(rows, rows.len()).len(),
    ensures
        ({
            let order = newest_first(rows, rows.len());
            with_pruning(ledger, rows, now, retention).runs.contains_key(order[i].record.id)
                <==> can_keep(
                kept_of(order, i as nat, now, retention),
                order[i],
                now,
                retention,
            )
        }),
{
    let order = newest_first(rows, rows.len());
    retention_removes_whole_finished_runs(ledger, rows, now, retention);
    assert(distinct_runs(rows));
    lemma_order_distinct(rows, rows.len());
    lemma_removed_exactly(order, order.len(), now, retention, i);
    finished_runs_are_ordered(rows, rows.len());
    assert(rows.take(rows.len() as int) =~= rows);
    assert(order.contains(order[i]));
    let k = choose|k: int| 0 <= k < rows.len() && rows[k] == order[i];
    assert(ledger.runs.contains_key(rows[k].record.id));
}

/// Whether admission sequences strictly fall along a sequence of runs.
spec fn strictly_falling(rows: Seq<StoredView>) -> bool {
    forall|i: int, j: int|
        0 <= i < j < rows.len() ==> (#[trigger] rows[i]).record.admission_sequence > (
        #[trigger] rows[j]).record.admission_sequence
}

/// Whether a run is kept when retention comes to it.
spec fn stays(order: Seq<StoredView>, i: int, now: Timestamp, retention: Retention) -> bool {
    can_keep(kept_of(order, i as nat, now, retention), order[i], now, retention)
}

/// Whether a row is one of the first `n` that stay.
spec fn one_that_stays(
    order: Seq<StoredView>,
    n: nat,
    now: Timestamp,
    retention: Retention,
    row: StoredView,
) -> bool {
    exists|i: int| 0 <= i < n && order[i] == row && #[trigger] stays(order, i, now, retention)
}

/// What is kept is what stays.
proof fn lemma_kept_stays(order: Seq<StoredView>, n: nat, now: Timestamp, retention: Retention)
    requires
        n <= order.len(),
    ensures
        forall|row: StoredView| #[trigger]
            kept_of(order, n, now, retention).contains(row) <==> one_that_stays(
                order,
                n,
                now,
                retention,
                row,
            ),
    decreases n,
{
    let kept = kept_of(order, n, now, retention);
    if n > 0 {
        let m = (n - 1) as nat;
        lemma_kept_stays(order, m, now, retention);
        let before = kept_of(order, m, now, retention);
        let last = order[m as int];
        assert forall|row: StoredView| #[trigger]
            kept.contains(row) <==> one_that_stays(order, n, now, retention, row) by {
            lemma_push_contains(before, last, row);
            assert(before.contains(row) <==> one_that_stays(order, m, now, retention, row));
            if one_that_stays(order, m, now, retention, row) {
                let i = choose|i: int|
                    0 <= i < m && order[i] == row && #[trigger] stays(order, i, now, retention);
                assert(0 <= i < n && stays(order, i, now, retention));
            }
            if one_that_stays(order, n, now, retention, row) {
                let i = choose|i: int|
                    0 <= i < n && order[i] == row && #[trigger] stays(order, i, now, retention);
                if i < m {
                    assert(one_that_stays(order, m, now, retention, row));
                }
            }
            if stays(order, m as int, now, retention) {
                assert(one_that_stays(order, n, now, retention, last));
            }
        }
    } else {
        assert forall|row: StoredView| #[trigger]
            kept.contains(row) <==> one_that_stays(order, n, now, retention, row) by {
            assert(kept.len() == 0);
        }
    }
}

/// What is kept is in the same order.
proof fn lemma_kept_falls(order: Seq<StoredView>, n: nat, now: Timestamp, retention: Retention)
    requires
        n <= order.len(),
        strictly_falling(order),
    ensures
        strictly_falling(kept_of(order, n, now, retention)),
    decreases n,
{
    if n > 0 {
        let m = (n - 1) as nat;
        lemma_kept_falls(order, m, now, retention);
        lemma_kept_stays(order, m, now, retention);
        let before = kept_of(order, m, now, retention);
        let kept = kept_of(order, n, now, retention);
        assert forall|i: int, j: int| 0 <= i < j < kept.len() implies (
        #[trigger] kept[i]).record.admission_sequence > (
        #[trigger] kept[j]).record.admission_sequence by {
            assert(kept[i] == before[i]);
            if j < before.len() {
                assert(kept[j] == before[j]);
            } else {
                assert(before.contains(before[i]));
                let at = choose|at: int|
                    0 <= at < m && order[at] == before[i] && #[trigger] stays(
                        order,
                        at,
                        now,
                        retention,
                    );
                assert(order[at].record.admission_sequence
                    > order[m as int].record.admission_sequence);
            }
        }
    }
}

/// Each run that is kept can be kept beside those before it.
proof fn lemma_kept_beside(
    order: Seq<StoredView>,
    n: nat,
    now: Timestamp,
    retention: Retention,
    k: int,
)
    requires
        n <= order.len(),
        0 <= k < kept_of(order, n, now, retention).len(),
    ensures
        ({
            let kept = kept_of(order, n, now, retention);
            can_keep(kept.take(k), kept[k], now, retention)
        }),
    decreases n,
{
    if n > 0 {
        let m = (n - 1) as nat;
        let before = kept_of(order, m, now, retention);
        let kept = kept_of(order, n, now, retention);
        if k < before.len() {
            lemma_kept_beside(order, m, now, retention, k);
            assert(kept.take(k) =~= before.take(k));
            assert(kept[k] == before[k]);
        } else {
            assert(kept.take(k) =~= before);
        }
    }
}

/// Whether some row has a record.
spec fn has_record(rows: Seq<StoredView>, record: RunRecordView) -> bool {
    exists|i: int| 0 <= i < rows.len() && (#[trigger] rows[i]).record == record
}

/// Whether every record of some rows is one of others.
spec fn records_among(a: Seq<StoredView>, b: Seq<StoredView>) -> bool {
    forall|i: int| 0 <= i < a.len() ==> #[trigger] has_record(b, a[i].record)
}

/// The last of the rows has the least sequence, so that records among others stay so without the
/// last of both.
proof fn lemma_fewer_among(a: Seq<StoredView>, b: Seq<StoredView>)
    requires
        a.len() > 0,
        b.len() > 0,
        strictly_falling(a),
        records_among(a, b),
        a.last().record == b.last().record,
    ensures
        records_among(a.drop_last(), b.drop_last()),
{
    let fewer = b.drop_last();
    assert forall|x: int| 0 <= x < a.len() - 1 implies #[trigger] has_record(
        fewer,
        a.drop_last()[x].record,
    ) by {
        assert(has_record(b, a[x].record));
        let y = choose|y: int| 0 <= y < b.len() && (#[trigger] b[y]).record == a[x].record;
        assert(a[x].record.admission_sequence > a[a.len() - 1].record.admission_sequence);
        assert(y != b.len() - 1);
        assert(fewer[y].record == a[x].record);
    }
}

proof fn lemma_least_among(a: Seq<StoredView>, b: Seq<StoredView>)
    requires
        a.len() > 0,
        b.len() > 0,
        strictly_falling(b),
        records_among(a, b),
    ensures
        a.last().record.admission_sequence >= b.last().record.admission_sequence,
        a.last().record.admission_sequence == b.last().record.admission_sequence
            ==> a.last().record == b.last().record,
{
    let last = a.len() - 1;
    assert(has_record(b, a[last].record));
    let y = choose|y: int| 0 <= y < b.len() && (#[trigger] b[y]).record == a[last].record;
    if y < b.len() - 1 {
        assert(b[y].record.admission_sequence > b[b.len() - 1].record.admission_sequence);
    }
}

/// Two lists of runs with strictly falling sequences and the same records have them in the same
/// order.
proof fn lemma_falling_unique(a: Seq<StoredView>, b: Seq<StoredView>)
    requires
        strictly_falling(a),
        strictly_falling(b),
        records_among(a, b),
        records_among(b, a),
    ensures
        a.len() == b.len(),
        forall|i: int| 0 <= i < a.len() ==> (#[trigger] a[i]).record == b[i].record,
    decreases a.len(),
{
    if a.len() == 0 {
        if b.len() > 0 {
            assert(has_record(a, b[0].record));
        }
    } else {
        assert(has_record(b, a[0].record));
        lemma_least_among(a, b);
        lemma_least_among(b, a);
        lemma_fewer_among(a, b);
        lemma_fewer_among(b, a);
        let fewer_a = a.drop_last();
        let fewer_b = b.drop_last();
        lemma_falling_unique(fewer_a, fewer_b);
        assert forall|x: int| 0 <= x < a.len() implies (#[trigger] a[x]).record == b[x].record by {
            if x < a.len() - 1 {
                assert(fewer_a[x].record == fewer_b[x].record);
            }
        }
    }
}

/// Lists with the same records and sizes count the same.
proof fn lemma_same_counts(a: Seq<StoredView>, b: Seq<StoredView>, job: Seq<char>)
    requires
        a.len() == b.len(),
        forall|i: int|
            0 <= i < a.len() ==> (#[trigger] a[i]).record == b[i].record && a[i].size()
                == b[i].size(),
    ensures
        count_job(a, job) == count_job(b, job),
        total(a) == total(b),
    decreases a.len(),
{
    if a.len() > 0 {
        let fewer_a = a.drop_last();
        let fewer_b = b.drop_last();
        assert forall|i: int| 0 <= i < fewer_a.len() implies (#[trigger] fewer_a[i]).record
            == fewer_b[i].record && fewer_a[i].size() == fewer_b[i].size() by {
            assert(fewer_a[i] == a[i]);
        }
        lemma_same_counts(fewer_a, fewer_b, job);
        assert(a[a.len() - 1].record == b[a.len() - 1].record);
    }
}

/// Where every run can be kept beside those before it, all are kept.
proof fn lemma_all_kept(
    order: Seq<StoredView>,
    like: Seq<StoredView>,
    n: nat,
    now: Timestamp,
    retention: Retention,
)
    requires
        n <= order.len(),
        order.len() == like.len(),
        forall|i: int|
            0 <= i < order.len() ==> (#[trigger] order[i]).record == like[i].record
                && order[i].size() == like[i].size(),
        forall|k: int|
            0 <= k < like.len() ==> can_keep(like.take(k), #[trigger] like[k], now, retention),
    ensures
        kept_of(order, n, now, retention) == order.take(n as int),
        removals(order, n, now, retention) == Seq::<ChangeView>::empty(),
    decreases n,
{
    if n == 0 {
        assert(order.take(0) =~= Seq::<StoredView>::empty());
    } else {
        let m = (n - 1) as nat;
        lemma_all_kept(order, like, m, now, retention);
        let row = order[m as int];
        assert(row.record == like[m as int].record);
        assert forall|i: int| 0 <= i < m implies (#[trigger] order.take(m as int)[i]).record
            == like.take(m as int)[i].record && order.take(m as int)[i].size() == like.take(
            m as int,
        )[i].size() by {
            assert(order[i].record == like[i].record);
        }
        lemma_same_counts(order.take(m as int), like.take(m as int), row.record.job);
        assert(can_keep(like.take(m as int), like[m as int], now, retention));
        assert(can_keep(order.take(m as int), row, now, retention));
        assert(order.take(n as int) =~= order.take(m as int).push(row));
    }
}

/// The finished runs of a consistent journal have strictly falling sequences in order.
proof fn lemma_strict_order(ledger: Ledger, rows: Seq<StoredView>)
    requires
        ledger.consistent(),
        shows_runs(rows, ledger),
    ensures
        strictly_falling(newest_first(rows, rows.len())),
        forall|i: int|
            0 <= i < newest_first(rows, rows.len()).len() ==> (#[trigger] newest_first(
                rows,
                rows.len(),
            )[i]).record.terminal() && rows.contains(newest_first(rows, rows.len())[i]),
{
    let order = newest_first(rows, rows.len());
    finished_runs_are_ordered(rows, rows.len());
    lemma_order_distinct(rows, rows.len());
    assert(rows.take(rows.len() as int) =~= rows);
    assert forall|i: int| 0 <= i < order.len() implies (#[trigger] order[i]).record.terminal()
        && rows.contains(order[i]) by {
        assert(order.contains(order[i]));
    }
    assert forall|i: int, j: int| 0 <= i < j < order.len() implies (
    #[trigger] order[i]).record.admission_sequence > (
    #[trigger] order[j]).record.admission_sequence by {
        let a = choose|a: int| 0 <= a < rows.len() && rows[a] == order[i];
        let b = choose|b: int| 0 <= b < rows.len() && rows[b] == order[j];
        assert(ledger.runs.contains_key(rows[a].record.id));
        assert(ledger.runs.contains_key(rows[b].record.id));
        assert(order[i].record.id != order[j].record.id);
    }
}

/// Whether rows show the same size of every run that both show.
pub open spec fn same_sizes(a: Seq<StoredView>, b: Seq<StoredView>) -> bool {
    forall|i: int, j: int|
        0 <= i < a.len() && 0 <= j < b.len() && (#[trigger] a[i]).record.id == (
        #[trigger] b[j]).record.id ==> a[i].size() == b[j].size()
}

/// Applying retention again at the same time changes nothing: what it kept, it keeps.
pub proof fn pruning_again_changes_nothing(
    ledger: Ledger,
    rows: Seq<StoredView>,
    again: Seq<StoredView>,
    now: Timestamp,
    retention: Retention,
)
    requires
        ledger.consistent(),
        shows_runs(rows, ledger),
        shows_runs(again, with_pruning(ledger, rows, now, retention)),
        same_sizes(again, rows),
    ensures
        pruning(again, now, retention) == Seq::<ChangeView>::empty(),
        with_pruning(with_pruning(ledger, rows, now, retention), again, now, retention)
            == with_pruning(ledger, rows, now, retention),
{
    let after = with_pruning(ledger, rows, now, retention);
    let order = newest_first(rows, rows.len());
    let kept = kept_of(order, order.len(), now, retention);
    let left = newest_first(again, again.len());
    retention_removes_whole_finished_runs(ledger, rows, now, retention);
    lemma_strict_order(ledger, rows);
    lemma_strict_order(after, again);
    lemma_kept_falls(order, order.len(), now, retention);
    lemma_kept_stays(order, order.len(), now, retention);
    assert forall|k: int| 0 <= k < kept.len() implies #[trigger] has_record(
        left,
        kept[k].record,
    ) by {
        lemma_kept_is_left(ledger, rows, again, now, retention, k);
    }
    assert forall|j: int| 0 <= j < left.len() implies #[trigger] has_record(
        kept,
        left[j].record,
    ) by {
        lemma_left_was_kept(ledger, rows, again, now, retention, j);
    }
    lemma_falling_unique(left, kept);
    assert forall|i: int| 0 <= i < left.len() implies (#[trigger] left[i]).record == kept[i].record
        && left[i].size() == kept[i].size() by {
        let at = choose|at: int| 0 <= at < again.len() && again[at] == left[i];
        assert(kept.contains(kept[i]));
        let from = choose|from: int|
            0 <= from < order.len() && order[from] == kept[i] && #[trigger] stays(
                order,
                from,
                now,
                retention,
            );
        assert(rows.contains(order[from]));
        let row = choose|row: int| 0 <= row < rows.len() && rows[row] == order[from];
        assert(again[at].record.id == rows[row].record.id);
    }
    assert forall|k: int| 0 <= k < kept.len() implies can_keep(
        kept.take(k),
        #[trigger] kept[k],
        now,
        retention,
    ) by {
        lemma_kept_beside(order, order.len(), now, retention, k);
    }
    lemma_all_kept(left, kept, left.len(), now, retention);
}

/// A run that was kept is among those that are left.
proof fn lemma_kept_is_left(
    ledger: Ledger,
    rows: Seq<StoredView>,
    again: Seq<StoredView>,
    now: Timestamp,
    retention: Retention,
    k: int,
)
    requires
        ledger.consistent(),
        shows_runs(rows, ledger),
        shows_runs(again, with_pruning(ledger, rows, now, retention)),
        0 <= k < kept_of(
            newest_first(rows, rows.len()),
            newest_first(rows, rows.len()).len(),
            now,
            retention,
        ).len(),
    ensures
        ({
            let order = newest_first(rows, rows.len());
            has_record(
                newest_first(again, again.len()),
                kept_of(order, order.len(), now, retention)[k].record,
            )
        }),
{
    let after = with_pruning(ledger, rows, now, retention);
    let order = newest_first(rows, rows.len());
    let kept = kept_of(order, order.len(), now, retention);
    let left = newest_first(again, again.len());
    lemma_strict_order(ledger, rows);
    lemma_kept_stays(order, order.len(), now, retention);
    assert(kept.contains(kept[k]));
    let i = choose|i: int|
        0 <= i < order.len() && order[i] == kept[k] && #[trigger] stays(order, i, now, retention);
    finished_run_stays_if_kept(ledger, rows, now, retention, i);
    let id = order[i].record.id;
    assert(after.runs.contains_key(id));
    assert(rows.contains(order[i]));
    let from = choose|from: int| 0 <= from < rows.len() && rows[from] == order[i];
    assert(ledger.runs[rows[from].record.id] == rows[from].record);
    retention_removes_whole_finished_runs(ledger, rows, now, retention);
    let at = choose|at: int| 0 <= at < again.len() && (#[trigger] again[at]).record.id == id;
    assert(after.runs[again[at].record.id] == again[at].record);
    assert(again[at].record == order[i].record);
    finished_runs_are_ordered(again, again.len());
    assert(again.take(again.len() as int) =~= again);
    assert(again.contains(again[at]));
    assert(left.contains(again[at]));
    let j = choose|j: int| 0 <= j < left.len() && left[j] == again[at];
    assert(left[j].record == kept[k].record);
}

/// A finished run that is left was kept.
proof fn lemma_left_was_kept(
    ledger: Ledger,
    rows: Seq<StoredView>,
    again: Seq<StoredView>,
    now: Timestamp,
    retention: Retention,
    j: int,
)
    requires
        ledger.consistent(),
        shows_runs(rows, ledger),
        shows_runs(again, with_pruning(ledger, rows, now, retention)),
        0 <= j < newest_first(again, again.len()).len(),
    ensures
        ({
            let order = newest_first(rows, rows.len());
            has_record(
                kept_of(order, order.len(), now, retention),
                newest_first(again, again.len())[j].record,
            )
        }),
{
    let after = with_pruning(ledger, rows, now, retention);
    let order = newest_first(rows, rows.len());
    let kept = kept_of(order, order.len(), now, retention);
    let left = newest_first(again, again.len());
    retention_removes_whole_finished_runs(ledger, rows, now, retention);
    lemma_strict_order(after, again);
    assert(again.contains(left[j]));
    let at = choose|at: int| 0 <= at < again.len() && again[at] == left[j];
    let id = again[at].record.id;
    assert(after.runs.contains_key(id));
    assert(after.runs[again[at].record.id] == again[at].record);
    assert(ledger.runs.contains_key(id));
    let from = choose|from: int| 0 <= from < rows.len() && (#[trigger] rows[from]).record.id == id;
    assert(ledger.runs[rows[from].record.id] == rows[from].record);
    assert(rows[from].record == left[j].record);
    finished_runs_are_ordered(rows, rows.len());
    assert(rows.take(rows.len() as int) =~= rows);
    assert(rows.contains(rows[from]));
    assert(order.contains(rows[from]));
    let i = choose|i: int| 0 <= i < order.len() && order[i] == rows[from];
    finished_run_stays_if_kept(ledger, rows, now, retention, i);
    assert(stays(order, i, now, retention));
    lemma_kept_stays(order, order.len(), now, retention);
    assert(one_that_stays(order, order.len(), now, retention, order[i]));
    assert(kept.contains(order[i]));
    let k = choose|k: int| 0 <= k < kept.len() && kept[k] == order[i];
    assert(kept[k].record == left[j].record);
}

} // verus!
