//! What the journal accepts, keeps and gives back.

use vstd::prelude::*;
use crate::journal::{
    append_fault, finish_fault, greatest, interrupted, read, record_fault, recovery_changes,
    sequenced, shows_runs, with_admission, ChangeView, Ledger, StoredLog, StoredView,
};
use crate::model::{
    record_views, CompletionView, ErrorView, JournalView, OutcomeView, OutputView, Page, Retention,
    RunCursor, RunLog, RunLogView, RunRecord, RunRecordView, RunStateView,
};
use crate::pages::{
    has_room, is_logs_page, is_runs_page, page_limit, sizes_total, MOST_BYTES, MOST_ENTRIES,
};
use crate::retention::{
    can_keep, count_job, finished_run_stays_if_kept, kept_of, newest_first, retention_limits_hold,
    total, with_pruning,
};
use crate::time::Timestamp;

verus! {

/// An admission is refused if the identifier is known, and else if the sequence is used up; else
/// the journal then holds the very record, under the sequence after the last.
pub proof fn admission_takes_the_next_sequence(ledger: Ledger, record: RunRecordView, known: bool)
    requires
        ledger.consistent(),
    ensures
        record_fault(record.id, known, ledger.sequence) == if known {
            Some(ErrorView::AlreadySubmitted(record.id))
        } else if ledger.sequence == 0xffff_ffff_ffff_ffff {
            Some(ErrorView::Journal("sequence exhausted"@))
        } else {
            None
        },
        sequenced(record, ledger.sequence) == (RunRecordView {
            admission_sequence: (ledger.sequence + 1) as u64,
            ..record
        }),
        !ledger.runs.contains_key(record.id) && ledger.sequence < u64::MAX ==> read(
            with_admission(ledger, record),
            record.id,
        ) == Some(
            RunRecordView { admission_sequence: (ledger.sequence + 1) as u64, ..record },
        ),
{
    if !ledger.runs.contains_key(record.id) && ledger.sequence < u64::MAX {
        crate::journal::admission_is_written(ledger, record);
    }
}

/// A record is terminal exactly if its state is finished, and its completion is then the one that
/// the state holds.
pub proof fn finished_records_are_terminal(record: RunRecordView, completion: CompletionView)
    ensures
        record.terminal() <==> record.state is Finished,
        record.completion() is Some <==> record.state is Finished,
        record.state == RunStateView::Finished(completion) ==> record.completion() == Some(
            completion,
        ),
{
}

/// Whether some log is of another run.
pub open spec fn has_stranger(logs: Seq<RunLogView>, id: u128) -> bool {
    exists|i: int| 0 <= i < logs.len() && (#[trigger] logs[i]).run_id != id
}

/// A batch of logs is accepted exactly for a known run without a result, if every log is of that
/// run; the reasons against it come in this order.
pub proof fn logs_are_accepted_until_the_result(record: RunRecordView, logs: Seq<RunLogView>)
    ensures
        append_fault(None, logs) == Some(ErrorView::NotFound),
        append_fault(Some(record), logs) == if record.state is Finished {
            Some(ErrorView::Journal("run sealed"@))
        } else if has_stranger(logs, record.id) {
            Some(ErrorView::Journal("wrong run log"@))
        } else {
            None
        },
{
}

/// A result is accepted exactly if it is one, the run is known, has no other result, and has the
/// same job and sequence, and every log is of that run; the reasons against it come in this
/// order.
pub proof fn result_is_accepted_once(
    record: RunRecordView,
    known: RunRecordView,
    logs: Seq<RunLogView>,
)
    ensures
        finish_fault(record, None, logs) == if record.state is Finished {
            Some(ErrorView::NotFound)
        } else {
            Some(ErrorView::Journal("missing completion"@))
        },
        finish_fault(record, Some(known), logs) == if !(record.state is Finished) {
            Some(ErrorView::Journal("missing completion"@))
        } else if known.state is Finished && known != record {
            Some(ErrorView::Journal("terminal result is immutable"@))
        } else if known.job != record.job || known.admission_sequence
            != record.admission_sequence {
            Some(ErrorView::Journal("run identity changed"@))
        } else if has_stranger(logs, record.id) {
            Some(ErrorView::Journal("wrong run log"@))
        } else {
            None
        },
{
}

/// Recovery ends an unfinished run as interrupted, without output and durably, at the time of
/// recovery; its last log is the greatest that was committed or recorded, and everything else
/// stays as it was admitted.
pub proof fn recovered_run_is_interrupted(row: StoredView, now: Timestamp, k: int)
    ensures
        ({
            let ended = interrupted(row, now);
            let last = ended.last_log_sequence;
            &&& ended == (RunRecordView {
                finished_at: Some(now),
                state: RunStateView::Finished(
                    CompletionView {
                        outcome: OutcomeView::Interrupted,
                        output: OutputView::Nothing,
                        journal: JournalView::Durable,
                    },
                ),
                last_log_sequence: last,
                ..row.record
            })
            &&& last >= row.record.last_log_sequence
            &&& 0 <= k < row.logs.len() ==> last >= row.logs[k].sequence
            &&& last == row.record.last_log_sequence || exists|i: int|
                0 <= i < row.logs.len() && (#[trigger] row.logs[i]).sequence == last
        }),
{
    lemma_greatest_found(row.logs, row.record.last_log_sequence, k);
}

proof fn lemma_greatest_found(logs: Seq<StoredLog>, least: u64, k: int)
    ensures
        greatest(logs, least) >= least,
        0 <= k < logs.len() ==> greatest(logs, least) >= logs[k].sequence,
        greatest(logs, least) == least || exists|i: int|
            0 <= i < logs.len() && (#[trigger] logs[i]).sequence == greatest(logs, least),
    decreases logs.len(),
{
    if logs.len() > 0 {
        let fewer = logs.drop_last();
        lemma_greatest_found(fewer, least, k);
        if logs.last().sequence > greatest(fewer, least) {
            assert(logs[logs.len() - 1].sequence == greatest(logs, least));
        } else if greatest(fewer, least) != least {
            let i = choose|i: int|
                0 <= i < fewer.len() && (#[trigger] fewer[i]).sequence == greatest(fewer, least);
            assert(logs[i].sequence == greatest(logs, least));
        }
    }
}

/// Recovery writes one record for every unfinished run, in their order, and for no other.
pub proof fn recovery_writes_unfinished_runs(rows: Seq<StoredView>, n: nat, now: Timestamp)
    requires
        n <= rows.len(),
    ensures
        recovery_changes(rows, n, now) == rows.take(n as int).filter(
            |row: StoredView| !(row.record.state is Finished),
        ).map_values(|row: StoredView| ChangeView::PutRun(interrupted(row, now))),
    decreases n,
{
    reveal(Seq::filter);
    let unfinished = |row: StoredView| !(row.record.state is Finished);
    let put = |row: StoredView| ChangeView::PutRun(interrupted(row, now));
    if n > 0 {
        let m = (n - 1) as nat;
        recovery_writes_unfinished_runs(rows, m, now);
        assert(rows.take(n as int).drop_last() =~= rows.take(m as int));
        assert(rows.take(n as int).last() == rows[n - 1]);
        assert(recovery_changes(rows, n, now) =~= rows.take(n as int).filter(
            unfinished,
        ).map_values(put));
    } else {
        assert(rows.take(0).filter(unfinished).map_values(put) =~= Seq::<ChangeView>::empty());
    }
}

// ---- Retention ----

/// The size of a run is that of its record, and grows by the size of each of its logs.
pub proof fn run_size_counts_record_and_logs(row: StoredView, log: StoredLog)
    ensures
        (StoredView { logs: Seq::empty(), ..row }).size() == row.bytes,
        (StoredView { logs: row.logs.push(log), ..row }).size() == row.size() + log.bytes,
{
    assert(row.logs.push(log).drop_last() =~= row.logs);
}

/// The size of runs grows by the size of each, and so does the number of those of its job.
pub proof fn totals_count_every_run(rows: Seq<StoredView>, row: StoredView, job: Seq<char>)
    ensures
        total(Seq::empty()) == 0,
        total(rows.push(row)) == total(rows) + row.size(),
        count_job(rows, job) == rows.filter(|r: StoredView| r.record.job == job).len(),
{
    assert(rows.push(row).drop_last() =~= rows);
    lemma_count_job(rows, job);
}

proof fn lemma_count_job(rows: Seq<StoredView>, job: Seq<char>)
    ensures
        count_job(rows, job) == rows.filter(|r: StoredView| r.record.job == job).len(),
    decreases rows.len(),
{
    reveal(Seq::filter);
    if rows.len() > 0 {
        lemma_count_job(rows.drop_last(), job);
    }
}

/// A finished run is kept beside others exactly if it ended no longer ago than the age allows,
/// fewer runs of its job and fewer runs at all are kept than may be, and its size still fits. A
/// run without a time of its end counts from its admission.
pub proof fn run_is_kept_within_every_limit(
    kept: Seq<StoredView>,
    row: StoredView,
    now: Timestamp,
    retention: Retention,
)
    ensures
        ({
            let ended = match row.record.finished_at {
                Some(at) => at.nanos,
                None => row.record.admitted_at.nanos,
            };
            &&& row.finished().nanos == ended
            &&& can_keep(kept, row, now, retention) <==> {
                &&& now.nanos - ended <= retention.age.nanos
                &&& kept.filter(|r: StoredView| r.record.job == row.record.job).len()
                    < retention.per_job
                &&& kept.len() < retention.runs
                &&& total(kept) + row.size() <= retention.bytes
            }
        }),
{
    lemma_count_job(kept, row.record.job);
}

proof fn lemma_stays(
    ledger: Ledger,
    rows: Seq<StoredView>,
    now: Timestamp,
    retention: Retention,
    n: nat,
)
    requires
        ledger.consistent(),
        shows_runs(rows, ledger),
        n <= newest_first(rows, rows.len()).len(),
    ensures
        ({
            let order = newest_first(rows, rows.len());
            let after = with_pruning(ledger, rows, now, retention);
            kept_of(order, n, now, retention) == order.take(n as int).filter(
                |row: StoredView| after.runs.contains_key(row.record.id),
            )
        }),
    decreases n,
{
    reveal(Seq::filter);
    let order = newest_first(rows, rows.len());
    let after = with_pruning(ledger, rows, now, retention);
    let stays = |row: StoredView| after.runs.contains_key(row.record.id);
    if n > 0 {
        let m = (n - 1) as nat;
        lemma_stays(ledger, rows, now, retention, m);
        finished_run_stays_if_kept(ledger, rows, now, retention, m as int);
        assert(order.take(n as int).drop_last() =~= order.take(m as int));
        assert(order.take(n as int).last() == order[m as int]);
        assert(kept_of(order, n, now, retention) =~= order.take(n as int).filter(stays));
    } else {
        assert(order.take(0).filter(stays) =~= Seq::<StoredView>::empty());
    }
}

/// The finished runs that the journal holds after retention are within every limit: their number,
/// the number of each job's, their size, and the age of each. One that is gone could not be kept
/// beside the newer ones that stay.
pub proof fn journal_is_within_retention(
    ledger: Ledger,
    rows: Seq<StoredView>,
    now: Timestamp,
    retention: Retention,
    job: Seq<char>,
    i: int,
)
    requires
        ledger.consistent(),
        shows_runs(rows, ledger),
    ensures
        ({
            let order = newest_first(rows, rows.len());
            let after = with_pruning(ledger, rows, now, retention);
            let stays = |row: StoredView| after.runs.contains_key(row.record.id);
            let left = order.filter(stays);
            &&& left.len() <= retention.runs
            &&& left.filter(|row: StoredView| row.record.job == job).len() <= retention.per_job
            &&& total(left) <= retention.bytes
            &&& 0 <= i < left.len() ==> now.nanos - left[i].finished().nanos
                <= retention.age.nanos
            &&& 0 <= i < order.len() ==> stays(order[i]) == can_keep(
                order.take(i).filter(stays),
                order[i],
                now,
                retention,
            )
        }),
{
    let order = newest_first(rows, rows.len());
    let after = with_pruning(ledger, rows, now, retention);
    let stays = |row: StoredView| after.runs.contains_key(row.record.id);
    lemma_stays(ledger, rows, now, retention, order.len());
    assert(order.take(order.len() as int) =~= order);
    retention_limits_hold(order, order.len(), now, retention, job, i);
    lemma_count_job(order.filter(stays), job);
    if 0 <= i < order.len() {
        lemma_stays(ledger, rows, now, retention, i as nat);
        finished_run_stays_if_kept(ledger, rows, now, retention, i);
    }
}

// ---- Pages ----

/// A page has at least one and at most two hundred entries, and within these as many as were
/// asked for; a page of logs has a quarter of a mebibyte at most.
pub proof fn page_limits_are_bounded(limit: usize)
    ensures
        page_limit(limit) == if limit == 0 {
            1
        } else if limit <= 200 {
            limit as int
        } else {
            200
        },
        MOST_ENTRIES == 200,
        MOST_BYTES == 256 * 1024,
{
}

/// A page of runs holds the first records there are, as many as fit, in their order. It has a
/// cursor exactly if there are more, and the cursor is the sequence and the identifier of the
/// last record on the page.
pub proof fn runs_page_is_the_first_records(
    page: Page<RunRecord, RunCursor>,
    records: Seq<RunRecordView>,
    limit: usize,
)
    requires
        is_runs_page(page, records, limit),
    ensures
        page.items@.len() <= 200,
        page.items@.len() <= records.len(),
        records.len() > 0 ==> page.items@.len() > 0,
        forall|i: int| 0 <= i < page.items@.len() ==> (#[trigger] page.items@[i])@ == records[i],
        page.items@.len() < records.len() <==> page.next is Some,
        page.items@.len() < records.len() ==> page.items@.len() == page_limit(limit),
        page.next matches Some(cursor) ==> {
            let last = page.items@[page.items@.len() - 1];
            cursor.sequence == last.admission_sequence && cursor.id == last.id
        },
{
    let held = page.items@.len();
    assert(record_views(page.items@).len() == held);
    assert forall|i: int| 0 <= i < held implies (#[trigger] page.items@[i])@ == records[i] by {
        assert(record_views(page.items@)[i] == page.items@[i]@);
    }
    if page.next is Some {
        assert(page.items@[held - 1]@ == records[held - 1]);
    }
}

/// A page of logs holds at least one entry if there is any, no more than may be asked for, and no
/// more bytes than a page may have unless it is a single entry; one more would be too many or too
/// large. It has a cursor exactly if there are more, and the cursor is the number of its last
/// entry.
pub proof fn logs_page_is_filled(page: Page<RunLog, u64>, sizes: Seq<usize>, limit: usize)
    requires
        is_logs_page(page, sizes, limit),
    ensures
        ({
            let held = page.items@.len();
            &&& held <= sizes.len()
            &&& held <= 200
            &&& sizes.len() > 0 ==> held > 0
            &&& held > 1 ==> sizes_total(sizes.take(held as int)) <= 256 * 1024
            &&& held < sizes.len() && held < page_limit(limit) ==> sizes_total(
                sizes.take((held + 1) as int),
            ) > 256 * 1024
            &&& page.next is Some <==> held < sizes.len()
            &&& page.next matches Some(sequence) ==> sequence == page.items@[held - 1].sequence
        }),
{
}

/// A row of logs is read for a page exactly if it is the first, or the page may have more entries
/// and the bytes up to it fit.
pub proof fn rows_with_room_are_read(sizes: Seq<usize>, limit: usize, i: int)
    requires
        0 <= i < sizes.len(),
    ensures
        has_room(sizes, limit, i) <==> i == 0 || i < page_limit(limit) && sizes_total(
            sizes.take(i + 1),
        ) <= 256 * 1024,
{
}

/// The size of some entries grows by the size of each.
pub proof fn sizes_add_up(sizes: Seq<usize>, size: usize)
    ensures
        sizes_total(Seq::empty()) == 0,
        sizes_total(sizes.push(size)) == sizes_total(sizes) + size,
{
    assert(sizes.push(size).drop_last() =~= sizes);
}

} // verus!
