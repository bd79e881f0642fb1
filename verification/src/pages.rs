//! Pages of history and logs, and the cursors between them.

use vstd::prelude::*;
use vstd::utf8::encode_utf8;
use crate::ids::{hyphenated, texts_sort_like_ids};
use crate::journal::{admission_is_written, record_fault, sequenced, with_admission, Ledger};
use crate::model::{
    log_views, record_views, Error, ErrorView, Page, RunCursor, RunLog, RunLogView, RunRecord,
    RunRecordView,
};
use crate::sorted::{increasing, Key};
use crate::text::{text_precedes, Place};

verus! {

/// The most entries of a page.
pub const MOST_ENTRIES: usize = 200;

/// The most bytes of a page of logs, unless its first entry alone has more.
pub const MOST_BYTES: usize = 262_144;

/// The entries that a page has at most, for the limit that was asked for.
pub open spec fn page_limit(limit: usize) -> usize {
    if limit < 1 {
        1
    } else if limit > MOST_ENTRIES {
        MOST_ENTRIES
    } else {
        limit
    }
}

/// Brings a limit within bounds.
pub fn clamp_limit(limit: usize) -> (clamped: usize)
    ensures
        clamped == page_limit(limit),
        1 <= clamped <= MOST_ENTRIES,
{
    if limit < 1 {
        1
    } else if limit > MOST_ENTRIES {
        MOST_ENTRIES
    } else {
        limit
    }
}

impl View for RunCursor {
    type V = (u64, u128);

    open spec fn view(&self) -> (u64, u128) {
        (self.sequence, self.id@)
    }
}

impl Key for RunCursor {
    type Model = (u64, u128);

    open spec fn model(&self) -> (u64, u128) {
        self@
    }

    open spec fn precedes(a: (u64, u128), b: (u64, u128)) -> bool {
        a.0 < b.0 || a.0 == b.0 && a.1 < b.1
    }

    proof fn irreflexive(a: (u64, u128)) {
    }

    proof fn transitive(a: (u64, u128), b: (u64, u128), c: (u64, u128)) {
    }

    fn compare(&self, other: &Self) -> (place: Place) {
        if self.sequence < other.sequence {
            Place::Before
        } else if self.sequence > other.sequence {
            Place::After
        } else {
            self.id.compare(&other.id)
        }
    }
}

/// Which rows of the index a page of runs needs: those of the job behind a position, and one more
/// than the page holds.
#[derive(Debug)]
pub struct RunsQuery {
    pub after_sequence: u64,
    pub after_id: String,
    pub take: usize,
}

/// Which rows a page of runs needs.
pub fn runs_query(after: Option<RunCursor>, limit: usize) -> (query: RunsQuery)
    ensures
        query.take == page_limit(limit) + 1,
        match after {
            Some(cursor) => query.after_sequence == cursor.sequence && query.after_id@
                == hyphenated(cursor.id@),
            None => query.after_sequence == 0 && query.after_id@ == ""@,
        },
{
    let take: usize = clamp_limit(limit) + 1;
    match after {
        Some(cursor) => RunsQuery {
            after_sequence: cursor.sequence,
            after_id: cursor.id.text(),
            take,
        },
        None => RunsQuery { after_sequence: 0, after_id: "".to_string(), take },
    }
}

/// The position of a record in its job's history.
pub open spec fn cursor_of(record: RunRecordView) -> (u64, u128) {
    (record.admission_sequence, record.id)
}

/// Whether every row of the index led to a record.
pub open spec fn all_found(rows: Seq<Option<RunRecord>>) -> bool {
    forall|i: int| 0 <= i < rows.len() ==> #[trigger] rows[i] is Some
}

/// The records of rows that were all found.
pub open spec fn found_views(rows: Seq<Option<RunRecord>>) -> Seq<RunRecordView> {
    rows.map_values(|row: Option<RunRecord>| (row->0)@)
}

/// How many of some rows a page holds.
pub open spec fn page_len(rows: nat, limit: usize) -> nat {
    if rows > page_limit(limit) {
        page_limit(limit) as nat
    } else {
        rows
    }
}

/// Whether a page is made of the first records, with a cursor if there are more.
pub open spec fn is_runs_page(
    page: Page<RunRecord, RunCursor>,
    records: Seq<RunRecordView>,
    limit: usize,
) -> bool {
    let held = page_len(records.len(), limit);
    &&& record_views(page.items@) == records.take(held as int)
    &&& match page.next {
        Some(cursor) => records.len() > held && cursor@ == cursor_of(records[held - 1]),
        None => records.len() <= held,
    }
}

/// Makes a page of the records that the rows of a query led to.
pub fn runs_page(rows: Vec<Option<RunRecord>>, limit: usize) -> (page: Result<
    Page<RunRecord, RunCursor>,
    Error,
>)
    ensures
        page is Ok <==> all_found(rows@),
        page matches Ok(made) ==> is_runs_page(made, found_views(rows@), limit),
        page matches Err(e) ==> e@ == ErrorView::Journal("orphan index"@),
{
    let ghost views = found_views(rows@);
    let limit: usize = clamp_limit(limit);
    let mut items: Vec<RunRecord> = Vec::new();
    let mut i: usize = 0;
    while i < rows.len()
        invariant
            i <= rows@.len(),
            views == found_views(rows@),
            items@.len() == i,
            forall|j: int| 0 <= j < i ==> #[trigger] rows@[j] is Some,
            forall|j: int| 0 <= j < i ==> (#[trigger] items@[j])@ == views[j],
        decreases rows@.len() - i,
    {
        match &rows[i] {
            None => {
                assert(!(rows@[i as int] is Some));
                return Err(Error::Journal("orphan index".to_string()));
            },
            Some(record) => {
                items.push(record.clone());
            },
        }
        i = i + 1;
    }
    let more = items.len() > limit;
    if more {
        items.truncate(limit);
    }
    let next = if more {
        let last = &items[items.len() - 1];
        Some(RunCursor { sequence: last.admission_sequence, id: last.id })
    } else {
        None
    };
    let ghost held = page_len(views.len(), limit);
    assert(record_views(items@) =~= views.take(held as int));
    Ok(Page { items, next })
}

/// The size of some entries.
pub open spec fn sizes_total(sizes: Seq<usize>) -> nat
    decreases sizes.len(),
{
    if sizes.len() == 0 {
        0
    } else {
        sizes_total(sizes.drop_last()) + sizes.last() as nat
    }
}

/// Whether a page of logs holds `n` of some entries: no more than the limit, no more bytes than a
/// page may have unless it holds a single entry, and one more would not fit.
pub open spec fn holds(sizes: Seq<usize>, limit: usize, n: nat) -> bool {
    &&& n <= sizes.len()
    &&& n <= page_limit(limit)
    &&& n <= 1 || sizes_total(sizes.take(n as int)) <= MOST_BYTES
    &&& n == sizes.len() || n == page_limit(limit) || (n >= 1 && sizes_total(
        sizes.take((n + 1) as int),
    ) > MOST_BYTES)
}

/// Whether an entry is looked at for a page: the page has room for it beside those before it.
pub open spec fn has_room(sizes: Seq<usize>, limit: usize, i: int) -> bool {
    &&& 0 <= i < sizes.len()
    &&& i < page_limit(limit)
    &&& i == 0 || sizes_total(sizes.take(i + 1)) <= MOST_BYTES
}

/// The sizes of rows of logs.
pub open spec fn row_sizes<R>(rows: Seq<(R, usize)>) -> Seq<usize> {
    rows.map_values(|row: (R, usize)| row.1)
}

/// Whether logs are what a reader makes of the first rows.
pub open spec fn read_from<R, F: Fn(&R) -> Result<RunLog, Error>>(
    read: F,
    rows: Seq<(R, usize)>,
    logs: Seq<RunLog>,
) -> bool {
    &&& logs.len() <= rows.len()
    &&& forall|i: int|
        0 <= i < logs.len() ==> call_ensures(
            read,
            (&rows[i].0,),
            Ok::<RunLog, Error>(#[trigger] logs[i]),
        )
}

/// Whether a page holds as many entries as fit of those with given sizes, with a cursor if there
/// are more.
pub open spec fn is_logs_page(page: Page<RunLog, u64>, sizes: Seq<usize>, limit: usize) -> bool {
    let held = page.items@.len();
    &&& holds(sizes, limit, held)
    &&& match page.next {
        Some(sequence) => held < sizes.len() && sequence == page.items@[held - 1].sequence,
        None => held == sizes.len(),
    }
}

/// Makes a page of the logs of a run behind a position, given whether the run is known and the
/// rows with their sizes. `read` tells what a row holds; it is asked about the rows of the page
/// only, and its error is the page's.
pub fn logs_page<R, F: Fn(&R) -> Result<RunLog, Error>>(
    known: bool,
    rows: &Vec<(R, usize)>,
    limit: usize,
    read: F,
) -> (page: Result<Page<RunLog, u64>, Error>)
    requires
        forall|row: &R| call_requires(read, (row,)),
    ensures
        !known ==> (page matches Err(e) && e@ == ErrorView::NotFound),
        page matches Ok(made) ==> is_logs_page(made, row_sizes(rows@), limit) && read_from(
            read,
            rows@,
            made.items@,
        ),
        known ==> (page matches Err(e) ==> exists|before: Seq<RunLog>|
            {
                &&& #[trigger] read_from(read, rows@, before)
                &&& has_room(row_sizes(rows@), limit, before.len() as int)
                &&& call_ensures(
                    read,
                    (&rows@[before.len() as int].0,),
                    Err::<RunLog, Error>(e),
                )
            }),
{
    if !known {
        return Err(Error::NotFound);
    }
    let ghost sizes = row_sizes(rows@);
    let most: usize = clamp_limit(limit);
    let mut items: Vec<RunLog> = Vec::new();
    let mut bytes: usize = 0;
    let mut i: usize = 0;
    let mut more = false;
    assert(sizes.take(0) =~= Seq::<usize>::empty());
    while i < rows.len() && !more
        invariant
            i <= rows@.len(),
            sizes == row_sizes(rows@),
            known,
            most == page_limit(limit),
            1 <= most,
            items@.len() == i,
            i <= most,
            forall|row: &R| call_requires(read, (row,)),
            read_from(read, rows@, items@),
            bytes == sizes_total(sizes.take(i as int)),
            i <= 1 || bytes <= MOST_BYTES,
            more ==> i < rows@.len() && (i == most || i >= 1 && sizes_total(sizes.take(i + 1))
                > MOST_BYTES),
        decreases rows@.len() - i, !more as int,
    {
        let size: usize = rows[i].1;
        proof {
            let longer = sizes.take(i + 1);
            assert(longer.drop_last() =~= sizes.take(i as int));
            assert(longer.last() == size);
        }
        if items.len() == most || (items.len() > 0 && (bytes > MOST_BYTES || size > MOST_BYTES
            - bytes)) {
            more = true;
        } else {
            bytes = if i == 0 {
                size
            } else {
                bytes + size
            };
            let row = &rows[i].0;
            match read(row) {
                Ok(log) => items.push(log),
                Err(e) => {
                    assert(read_from(read, rows@, items@));
                    assert(has_room(sizes, limit, items@.len() as int));
                    return Err(e);
                },
            }
            i = i + 1;
        }
    }
    let next = if more {
        Some(items[items.len() - 1].sequence)
    } else {
        None
    };
    Ok(Page { items, next })
}

// ---- Laws ----

/// Whether a sequence of positions lists the history of a job in order.
pub open spec fn lists(history: Seq<(u64, u128)>, ledger: Ledger, job: Seq<char>) -> bool {
    &&& increasing::<RunCursor>(history)
    &&& forall|at: (u64, u128)|
        history.contains(at) <==> #[trigger] ledger.index.contains((job, at.0, at.1))
}

/// Where a page starts that follows the first `n` entries of a history.
pub open spec fn start_after(history: Seq<(u64, u128)>, n: int) -> Option<(u64, u128)> {
    if n == 0 {
        None
    } else {
        Some(history[n - 1])
    }
}

/// The entries of a history behind a position.
pub open spec fn behind(
    history: Seq<(u64, u128)>,
    after: Option<(u64, u128)>,
) -> Seq<(u64, u128)> {
    match after {
        Some(at) => history.filter(|entry: (u64, u128)| RunCursor::precedes(at, entry)),
        None => history,
    }
}

/// The entries that a query reads: those behind a position, one more than a page holds at most.
pub open spec fn queried(
    history: Seq<(u64, u128)>,
    after: Option<(u64, u128)>,
    limit: usize,
) -> Seq<(u64, u128)> {
    let rest = behind(history, after);
    if rest.len() > page_limit(limit) {
        rest.take(page_limit(limit) + 1)
    } else {
        rest
    }
}

/// Whether an entry of the index, which sorts by sequence and then by the text of the identifier,
/// comes after a key.
pub open spec fn sorts_after(sequence: u64, id: Seq<char>, entry: (u64, u128)) -> bool {
    sequence < entry.0 || sequence == entry.0 && text_precedes(id, hyphenated(entry.1))
}

/// The key that a query starts after leaves out exactly the entries up to its cursor: all of a
/// history is behind no cursor.
pub proof fn query_starts_behind_cursor(after: Option<(u64, u128)>, entry: (u64, u128))
    ensures
        match after {
            Some(at) => sorts_after(at.0, hyphenated(at.1), entry) <==> RunCursor::precedes(
                at,
                entry,
            ),
            None => sorts_after(0, ""@, entry),
        },
{
    match after {
        Some(at) => texts_sort_like_ids(at.1, entry.1),
        None => {
            reveal_strlit("");
            assert(""@ =~= Seq::<char>::empty());
            assert(hyphenated(entry.1)[0] == hyphenated(entry.1).first());
            assert(encode_utf8(hyphenated(entry.1)).len() > 0);
        },
    }
}

proof fn lemma_behind_first(history: Seq<(u64, u128)>, at: (u64, u128), n: int)
    requires
        increasing::<RunCursor>(history),
        0 <= n <= history.len(),
        forall|k: int| 0 <= k < n ==> !RunCursor::precedes(at, #[trigger] history[k]),
        forall|k: int| n <= k < history.len() ==> RunCursor::precedes(at, #[trigger] history[k]),
    ensures
        behind(history, Some(at)) == history.skip(n),
    decreases history.len(),
{
    reveal(Seq::filter);
    if history.len() > 0 {
        let fewer = history.drop_last();
        let last = history.last();
        if n < history.len() {
            lemma_behind_first(fewer, at, n);
            assert(history[history.len() - 1] == last);
            assert(fewer.skip(n).push(last) =~= history.skip(n));
        } else {
            lemma_behind_first(fewer, at, n - 1);
            assert(!RunCursor::precedes(at, history[n - 1]));
            assert(fewer.skip(n - 1) =~= Seq::<(u64, u128)>::empty());
            assert(history.skip(n) =~= Seq::<(u64, u128)>::empty());
        }
    } else {
        assert(history.skip(n) =~= Seq::<(u64, u128)>::empty());
    }
}

/// Pages follow each other without gap or repetition: the page behind the first `n` entries of a
/// history is made of the next ones, and its cursor, if there are more, is where the page behind
/// those starts.
pub proof fn pages_continue(
    history: Seq<(u64, u128)>,
    n: int,
    records: Seq<RunRecordView>,
    page: Page<RunRecord, RunCursor>,
    limit: usize,
)
    requires
        increasing::<RunCursor>(history),
        0 <= n <= history.len(),
        records.map_values(|r: RunRecordView| cursor_of(r)) == queried(
            history,
            start_after(history, n),
            limit,
        ),
        is_runs_page(page, records, limit),
    ensures
        ({
            let shown = record_views(page.items@).map_values(|r: RunRecordView| cursor_of(r));
            let end = n + shown.len();
            &&& end <= history.len()
            &&& shown == history.subrange(n, end)
            &&& page.next is Some <==> end < history.len()
            &&& page.next matches Some(cursor) ==> start_after(history, end) == Some(cursor@)
            &&& n < history.len() ==> n < end
        }),
{
    let rest = behind(history, start_after(history, n));
    if n > 0 {
        let at = history[n - 1];
        assert forall|k: int| 0 <= k < n implies !RunCursor::precedes(
            at,
            #[trigger] history[k],
        ) by {
            if k < n - 1 {
                assert(RunCursor::precedes(history[k], history[n - 1]));
            }
        }
        assert forall|k: int| n <= k < history.len() implies RunCursor::precedes(
            at,
            #[trigger] history[k],
        ) by {
            assert(RunCursor::precedes(history[n - 1], history[k]));
        }
        lemma_behind_first(history, at, n);
    } else {
        assert(history.skip(0) =~= history);
    }
    assert(rest == history.skip(n));
    let cursors = records.map_values(|r: RunRecordView| cursor_of(r));
    let held = page_len(records.len(), limit);
    let shown = record_views(page.items@).map_values(|r: RunRecordView| cursor_of(r));
    assert(cursors.len() == records.len());
    assert(record_views(page.items@).len() == held);
    assert forall|k: int| 0 <= k < held implies #[trigger] shown[k] == history[n + k] by {
        assert(record_views(page.items@)[k] == records[k]);
        assert(shown[k] == cursors[k]);
        assert(cursors[k] == rest[k]);
    }
    assert(shown =~= history.subrange(n, n + shown.len()));
    assert(records.len() > held <==> rest.len() > held);
    assert(rest.len() > 0 ==> held > 0);
    if records.len() > held {
        assert(cursors[held - 1] == cursor_of(records[held - 1]));
        assert(shown[held - 1] == history[n + held - 1]);
        assert(cursors[held - 1] == history[n + held - 1]);
    }
}

/// A new run comes last in the history of its job, whatever the clock says, so that no cursor
/// misses it; the histories of other jobs stay as they are.
pub proof fn admission_comes_last(
    ledger: Ledger,
    record: RunRecordView,
    job: Seq<char>,
    history: Seq<(u64, u128)>,
)
    requires
        ledger.consistent(),
        record_fault(record.id, ledger.runs.contains_key(record.id), ledger.sequence) is None,
        lists(history, ledger, job),
    ensures
        job == record.job ==> lists(
            history.push(cursor_of(sequenced(record, ledger.sequence))),
            with_admission(ledger, record),
            job,
        ),
        job != record.job ==> lists(history, with_admission(ledger, record), job),
{
    admission_is_written(ledger, record);
    let after = with_admission(ledger, record);
    let new = cursor_of(sequenced(record, ledger.sequence));
    assert forall|at: (u64, u128)| history.contains(at) implies at.0 <= ledger.sequence by {
        assert(ledger.index.contains((job, at.0, at.1)));
        assert(ledger.runs.contains_key(at.1));
    }
    if job == record.job {
        let more = history.push(new);
        assert forall|i: int, j: int| 0 <= i < j < more.len() implies #[trigger] RunCursor::precedes(
            more[i],
            #[trigger] more[j],
        ) by {
            if j == history.len() {
                assert(history.contains(history[i]));
            } else {
                assert(RunCursor::precedes(history[i], history[j]));
            }
        }
        assert forall|at: (u64, u128)| more.contains(at) <==> #[trigger] after.index.contains(
            (job, at.0, at.1),
        ) by {
            assert(more[history.len() as int] == new);
            if history.contains(at) {
                let k = choose|k: int| 0 <= k < history.len() && history[k] == at;
                assert(more[k] == at);
            }
            if more.contains(at) && at != new {
                let k = choose|k: int| 0 <= k < more.len() && more[k] == at;
                assert(history[k] == at);
            }
            assert(history.contains(at) <==> ledger.index.contains((job, at.0, at.1)));
        }
    } else {
        assert forall|at: (u64, u128)| history.contains(at) <==> #[trigger] after.index.contains(
            (job, at.0, at.1),
        ) by {
            assert(history.contains(at) <==> ledger.index.contains((job, at.0, at.1)));
        }
    }
}

/// A page of logs is never empty where there are entries, so that reading on comes to an end, and
/// it stays within its bounds.
pub proof fn log_page_goes_on(page: Page<RunLog, u64>, sizes: Seq<usize>, limit: usize)
    requires
        is_logs_page(page, sizes, limit),
    ensures
        sizes.len() > 0 ==> page.items@.len() > 0,
        page.items@.len() <= page_limit(limit) <= MOST_ENTRIES,
        page.items@.len() > 1 ==> sizes_total(sizes.take(page.items@.len() as int)) <= MOST_BYTES,
        page.next is Some ==> page.items@.len() > 0 && page.next == Some(
            log_views(page.items@).last().sequence,
        ),
{
}

/// Whether the sequence numbers of logs rise.
pub open spec fn rising(logs: Seq<RunLogView>) -> bool {
    forall|i: int, j: int|
        0 <= i < j < logs.len() ==> (#[trigger] logs[i]).sequence < (#[trigger] logs[j]).sequence
}

/// The logs behind a sequence number.
pub open spec fn logs_behind(logs: Seq<RunLogView>, after: u64) -> Seq<RunLogView> {
    logs.filter(|log: RunLogView| log.sequence > after)
}

proof fn lemma_logs_behind(logs: Seq<RunLogView>, after: u64, n: int)
    requires
        0 <= n <= logs.len(),
        forall|k: int| 0 <= k < n ==> (#[trigger] logs[k]).sequence <= after,
        forall|k: int| n <= k < logs.len() ==> (#[trigger] logs[k]).sequence > after,
    ensures
        logs_behind(logs, after) == logs.skip(n),
    decreases logs.len(),
{
    reveal(Seq::filter);
    if logs.len() > 0 {
        let fewer = logs.drop_last();
        let last = logs.last();
        assert(logs[logs.len() - 1] == last);
        if n < logs.len() {
            lemma_logs_behind(fewer, after, n);
            assert(fewer.skip(n).push(last) =~= logs.skip(n));
        } else {
            lemma_logs_behind(fewer, after, n - 1);
            assert(fewer.skip(n - 1) =~= Seq::<RunLogView>::empty());
            assert(logs.skip(n) =~= Seq::<RunLogView>::empty());
        }
    } else {
        assert(logs.skip(n) =~= Seq::<RunLogView>::empty());
    }
}

/// Pages of logs follow each other without gap or repetition: the cursor of a page stands right
/// before the entries that the page does not hold.
pub proof fn log_pages_continue(
    page: Page<RunLog, u64>,
    logs: Seq<RunLogView>,
    sizes: Seq<usize>,
    limit: usize,
)
    requires
        is_logs_page(page, sizes, limit),
        sizes.len() == logs.len(),
        log_views(page.items@) == logs.take(page.items@.len() as int),
        rising(logs),
    ensures
        page.next matches Some(after) ==> logs_behind(logs, after) == logs.skip(
            page.items@.len() as int,
        ),
        page.next is None ==> log_views(page.items@) == logs,
{
    let held = page.items@.len();
    match page.next {
        Some(after) => {
            assert(log_views(page.items@)[held - 1].sequence == after);
            assert(logs[held - 1].sequence == after);
            assert forall|k: int| 0 <= k < held implies (#[trigger] logs[k]).sequence <= after by {
                if k < held - 1 {
                    assert(logs[k].sequence < logs[held - 1].sequence);
                }
            }
            assert forall|k: int| held <= k < logs.len() implies (#[trigger] logs[k]).sequence
                > after by {
                assert(logs[held - 1].sequence < logs[k].sequence);
            }
            lemma_logs_behind(logs, after, held as int);
        },
        None => {
            assert(logs.take(held as int) =~= logs);
        },
    }
}

} // verus!
