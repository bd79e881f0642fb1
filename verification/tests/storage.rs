use chrono::{TimeZone, Utc};
use nyanpasu_jobs::journal::{
    admit_record, append_logs, call_result, finish_record, recover, CallEnd, Change, StoredLog,
    StoredRun,
};
use nyanpasu_jobs::pages::{logs_page, runs_page, runs_query};
use nyanpasu_jobs::retention::prune;
use nyanpasu_jobs::sorted::SortedMap;
use nyanpasu_jobs::time::{Span, Timestamp};
use nyanpasu_jobs::{
    Clock, Completion, Error, JournalState, Outcome, Output, Page, Retention, RunCursor, RunId,
    RunLog, RunRecord, RunState, SystemClock, Trigger,
};
use std::collections::BTreeMap;

/// Tables as a database has them: rows under ordered keys.
#[derive(Default)]
struct Tables {
    runs: BTreeMap<String, RunRecord>,
    index: BTreeMap<(String, u64, String), String>,
    logs: BTreeMap<(String, u64), RunLog>,
    sequence: u64,
}

impl Tables {
    fn commit(&mut self, changes: Vec<Change>) {
        for change in changes {
            match change {
                Change::PutRun(record) => {
                    self.runs.insert(record.id.text(), record);
                }
                Change::PutIndex(job, sequence, id) => {
                    self.index.insert((job, sequence, id.text()), id.text());
                }
                Change::PutSequence(sequence) => self.sequence = sequence,
                Change::PutLog(log) => {
                    self.logs.insert((log.run_id.text(), log.sequence), log);
                }
                Change::RemoveRun(id) => {
                    self.runs.remove(&id.text());
                }
                Change::RemoveIndex(job, sequence, id) => {
                    self.index.remove(&(job, sequence, id.text()));
                }
                Change::RemoveLog(id, sequence) => {
                    self.logs.remove(&(id.text(), sequence));
                }
            }
        }
    }
    fn size(record: &RunRecord) -> usize {
        format!("{record:?}").len()
    }
    fn stored(&self) -> Vec<StoredRun> {
        self.runs
            .iter()
            .map(|(id, record)| StoredRun {
                record: record.clone(),
                bytes: Self::size(record),
                logs: self
                    .logs
                    .range((id.clone(), 0)..=(id.clone(), u64::MAX))
                    .map(|(key, log)| StoredLog { sequence: key.1, bytes: format!("{log:?}").len() })
                    .collect(),
            })
            .collect()
    }
    fn insert_run(&mut self, record: RunRecord) -> Result<RunRecord, Error> {
        let known = self.runs.contains_key(&record.id.text());
        let (saved, changes) = admit_record(record, known, self.sequence)?;
        self.commit(changes);
        Ok(saved)
    }
    fn append(&mut self, id: RunId, logs: &Vec<RunLog>) -> Result<(), Error> {
        let changes = append_logs(self.runs.get(&id.text()), logs)?;
        self.commit(changes);
        Ok(())
    }
    fn finish(&mut self, record: &RunRecord, logs: &Vec<RunLog>) -> Result<(), Error> {
        let changes = finish_record(record, self.runs.get(&record.id.text()), logs)?;
        self.commit(changes);
        Ok(())
    }
    fn recover(&mut self, now: Timestamp) {
        let changes = recover(&self.stored(), now);
        self.commit(changes);
    }
    fn get(&self, id: RunId) -> Option<RunRecord> {
        self.runs.get(&id.text()).cloned()
    }
    fn runs(&self, job: &str, after: Option<RunCursor>, limit: usize) -> Result<Page<RunRecord, RunCursor>, Error> {
        let query = runs_query(after, limit);
        let start = (job.to_string(), query.after_sequence, query.after_id);
        let rows = self
            .index
            .range((std::ops::Bound::Excluded(start), std::ops::Bound::Unbounded))
            .filter(|(key, _)| key.0 == job)
            .take(query.take)
            .map(|(_, id)| self.runs.get(id).cloned())
            .collect();
        runs_page(rows, limit)
    }
    fn logs(&self, id: RunId, after: u64, limit: usize) -> Result<Page<RunLog, u64>, Error> {
        let id = id.text();
        let rows = self
            .logs
            .range((std::ops::Bound::Excluded((id.clone(), after)), std::ops::Bound::Included((id.clone(), u64::MAX))))
            .map(|(_, log)| (log.clone(), format!("{log:?}").len()))
            .collect();
        logs_page(self.runs.contains_key(&id), &rows, limit, |log: &RunLog| Ok(log.clone()))
    }
    fn prune(&mut self, now: Timestamp, retention: &Retention) {
        let changes = prune(&self.stored(), now, retention);
        self.commit(changes);
    }
}

fn now() -> Timestamp {
    SystemClock.now()
}

fn record(job: &str) -> RunRecord {
    RunRecord {
        id: RunId::new_v4(),
        job: job.to_string(),
        definition_version: 1,
        trigger: Trigger::Manual,
        scheduled_at: None,
        admitted_at: now(),
        admission_sequence: 0,
        finished_at: None,
        state: RunState::Admitted,
        last_log_sequence: 0,
        dropped_log_count: 0,
    }
}

fn finish(record: &mut RunRecord) {
    record.finished_at = Some(now());
    record.state = RunState::Finished(Completion {
        outcome: Outcome::Succeeded,
        output: Output::Json("42".to_string()),
        journal: JournalState::Durable,
    });
}

fn log(run_id: RunId, sequence: u64) -> RunLog {
    RunLog {
        run_id,
        sequence,
        time: now(),
        level: "INFO".to_string(),
        target: "safe".to_string(),
        fields: SortedMap::new(),
    }
}

#[test]
fn reopen_recovers_unfinished_runs_without_replaying_and_keeps_committed_logs() {
    let mut store = Tables::default();
    let running = store.insert_run(record("job")).unwrap();
    let mut done = store.insert_run(record("job")).unwrap();
    finish(&mut done);
    store.finish(&done, &vec![]).unwrap();
    store.append(running.id, &vec![log(running.id, 8)]).unwrap();
    store.recover(now());
    let recovered = store.get(running.id).unwrap();
    assert_eq!(recovered.completion().unwrap().outcome, Outcome::Interrupted);
    assert_eq!(recovered.last_log_sequence, 8);
    assert_eq!(store.logs(running.id, 0, 10).unwrap().items.len(), 1);
    assert_eq!(store.get(done.id).unwrap().completion().unwrap().outcome, Outcome::Succeeded);
    assert!(matches!(store.insert_run(running), Err(Error::AlreadySubmitted(_))));
}

#[test]
fn transaction_rejects_wrong_run_log_without_partial_terminal_record() {
    let mut store = Tables::default();
    let mut run = store.insert_run(record("job")).unwrap();
    finish(&mut run);
    assert!(store.finish(&run, &vec![log(RunId::new_v4(), 1)]).is_err());
    assert!(store.get(run.id).unwrap().completion().is_none());
    assert!(store.logs(run.id, 0, 10).unwrap().items.is_empty());
    store.finish(&run, &vec![]).unwrap();
    store.finish(&run, &vec![]).unwrap();
    let mut changed = run.clone();
    changed.state = RunState::Finished(Completion {
        outcome: Outcome::Cancelled,
        output: Output::Nothing,
        journal: JournalState::Durable,
    });
    assert!(store.finish(&changed, &vec![]).is_err());
    assert_eq!(store.get(run.id).unwrap().completion().unwrap().outcome, Outcome::Succeeded);
}

#[test]
fn sequence_cursor_survives_clock_rollback_and_retention_removes_indexes_and_logs() {
    let mut store = Tables::default();
    let active = store.insert_run(record("job")).unwrap();
    let mut first = store.insert_run(record("job")).unwrap();
    finish(&mut first);
    store.finish(&first, &vec![log(first.id, 1)]).unwrap();
    let page = store.runs("job", None, 1).unwrap();
    assert_eq!(page.items[0].id, active.id);
    let mut later = record("job");
    let early = Utc.with_ymd_and_hms(2000, 1, 1, 0, 0, 0).unwrap();
    later.admitted_at = Timestamp::joined(early.timestamp(), 0);
    let mut later = store.insert_run(later).unwrap();
    finish(&mut later);
    store.finish(&later, &vec![]).unwrap();
    let page = store.runs("job", page.next, 10).unwrap();
    assert_eq!(page.items.iter().map(|r| r.id).collect::<Vec<_>>(), vec![first.id, later.id]);
    store.prune(now(), &Retention { per_job: 1, ..Retention::default() });
    assert!(store.get(first.id).is_none());
    assert!(matches!(store.logs(first.id, 0, 1), Err(Error::NotFound)));
    let page = store.runs("job", None, 50).unwrap();
    assert_eq!(page.items.len(), 2);
    assert_eq!(page.items[0].id, active.id);
    let soon = Timestamp { nanos: now().nanos + 1_000_000_000 };
    store.prune(soon, &Retention { age: Span { nanos: 0 }, ..Retention::default() });
    assert_eq!(store.runs("job", None, 50).unwrap().items.len(), 1);
    assert!(store.get(active.id).unwrap().completion().is_none());
    assert!(store.logs.is_empty());
    assert_eq!(store.index.len(), 1);
}

#[test]
fn admission_gives_rising_sequences_until_they_are_used_up() {
    let mut store = Tables::default();
    assert_eq!(store.insert_run(record("a")).unwrap().admission_sequence, 1);
    assert_eq!(store.insert_run(record("b")).unwrap().admission_sequence, 2);
    store.sequence = u64::MAX;
    assert_eq!(
        store.insert_run(record("a")).unwrap_err(),
        Error::Journal("sequence exhausted".to_string())
    );
}

#[test]
fn writes_say_why_they_are_refused() {
    let mut store = Tables::default();
    let mut run = store.insert_run(record("job")).unwrap();
    assert_eq!(store.append(RunId { bits: 5 }, &vec![]).unwrap_err(), Error::NotFound);
    assert_eq!(
        store.append(run.id, &vec![log(RunId { bits: 5 }, 1)]).unwrap_err(),
        Error::Journal("wrong run log".to_string())
    );
    assert_eq!(
        store.finish(&run, &vec![]).unwrap_err(),
        Error::Journal("missing completion".to_string())
    );
    finish(&mut run);
    let mut unknown = run.clone();
    unknown.id = RunId { bits: 5 };
    assert_eq!(store.finish(&unknown, &vec![]).unwrap_err(), Error::NotFound);
    let mut moved = run.clone();
    moved.job = "other".to_string();
    assert_eq!(
        store.finish(&moved, &vec![]).unwrap_err(),
        Error::Journal("run identity changed".to_string())
    );
    store.finish(&run, &vec![log(run.id, 1), log(run.id, 2)]).unwrap();
    assert_eq!(store.get(run.id), Some(run.clone()));
    assert_eq!(store.logs(run.id, 0, 10).unwrap().items.len(), 2);
    assert_eq!(
        store.append(run.id, &vec![]).unwrap_err(),
        Error::Journal("run sealed".to_string())
    );
    let mut changed = run;
    changed.dropped_log_count = 1;
    assert_eq!(
        store.finish(&changed, &vec![]).unwrap_err(),
        Error::Journal("terminal result is immutable".to_string())
    );
}

#[test]
fn pages_follow_each_other_without_gap() {
    let mut store = Tables::default();
    let mut expected = Vec::new();
    for _ in 0..7 {
        expected.push(store.insert_run(record("job")).unwrap().id);
        store.insert_run(record("other")).unwrap();
    }
    let mut seen = Vec::new();
    let mut after = None;
    loop {
        let page = store.runs("job", after, 3).unwrap();
        seen.extend(page.items.iter().map(|r| r.id));
        after = page.next;
        if after.is_none() {
            break;
        }
    }
    assert_eq!(seen, expected);
    assert_eq!(store.runs("job", None, 0).unwrap().items.len(), 1);
    assert_eq!(runs_query(None, 1000).take, 201);
    assert_eq!(
        runs_page(vec![None], 5).unwrap_err(),
        Error::Journal("orphan index".to_string())
    );
}

#[test]
fn log_pages_are_bounded_in_entries_and_bytes() {
    let id = RunId { bits: 3 };
    let row = |sequence: u64, bytes: usize| (sequence, bytes);
    let read = |sequence: &u64| match *sequence {
        99 => Err(Error::Journal("corrupt".to_string())),
        n => Ok(log(id, n)),
    };
    let page = logs_page(true, &vec![row(1, 300_000), row(2, 1)], 10, read).unwrap();
    assert_eq!(page.items.len(), 1);
    assert_eq!(page.next, Some(1));
    let rows = vec![row(1, 200_000), row(2, 62_144), row(3, 1)];
    let page = logs_page(true, &rows, 10, read).unwrap();
    assert_eq!(page.items.len(), 2);
    assert_eq!(page.next, Some(2));
    let rows = (100..400).map(|n| row(n, 1)).collect();
    let page = logs_page(true, &rows, 1000, read).unwrap();
    assert_eq!(page.items.len(), 200);
    assert_eq!(page.next, Some(299));
    let page = logs_page(true, &vec![row(1, 1), row(2, 1)], 2, read).unwrap();
    assert_eq!(page.items.iter().map(|l| l.sequence).collect::<Vec<_>>(), vec![1, 2]);
    assert_eq!(page.next, None);
    assert_eq!(logs_page(false, &vec![row(1, 1)], 2, read).unwrap_err(), Error::NotFound);
    // A row that cannot be read fails the page that would hold it, and no page before it.
    let page = logs_page(true, &vec![row(98, 1), row(99, 1)], 1, read).unwrap();
    assert_eq!(page.next, Some(98));
    assert_eq!(
        logs_page(true, &vec![row(98, 1), row(99, 1)], 2, read).unwrap_err(),
        Error::Journal("corrupt".to_string())
    );
}

#[test]
fn retention_keeps_the_newest_within_every_limit() {
    let terminal = |bits: u128, job: &str, sequence: u64, finished: i128, bytes: usize| {
        let mut run = record(job);
        run.id = RunId { bits };
        run.admission_sequence = sequence;
        finish(&mut run);
        run.finished_at = Some(Timestamp { nanos: finished });
        StoredRun { record: run, bytes, logs: vec![StoredLog { sequence: 9, bytes: 10 }] }
    };
    let removed = |rows: &Vec<StoredRun>, retention: Retention| -> Vec<u128> {
        let mut gone: Vec<u128> = prune(rows, Timestamp { nanos: 100 }, &retention)
            .into_iter()
            .filter_map(|change| match change {
                Change::RemoveRun(id) => Some(id.bits),
                _ => None,
            })
            .collect();
        gone.sort();
        gone
    };
    let mut rows = vec![
        terminal(1, "a", 3, 10, 90),
        terminal(2, "b", 2, 20, 90),
        terminal(3, "a", 5, 30, 90),
        terminal(4, "a", 4, 90, 490),
    ];
    let all = Retention::default();
    assert_eq!(removed(&rows, all), Vec::<u128>::new());
    assert_eq!(removed(&rows, Retention { runs: 1, ..all }), vec![1, 2, 4]);
    assert_eq!(removed(&rows, Retention { per_job: 1, ..all }), vec![1, 4]);
    assert_eq!(removed(&rows, Retention { age: Span { nanos: 70 }, ..all }), vec![1, 2]);
    assert_eq!(removed(&rows, Retention { bytes: 300, ..all }), vec![4]);
    rows[2].record.state = RunState::Running;
    assert_eq!(removed(&rows, Retention { runs: 0, ..all }), vec![1, 2, 4]);
    let changes = prune(&rows, Timestamp { nanos: 100 }, &Retention { runs: 2, ..all });
    assert_eq!(changes.len(), 3);
    assert!(matches!(&changes[0], Change::RemoveRun(id) if id.bits == 2));
    assert!(matches!(&changes[1], Change::RemoveIndex(job, 2, id) if job == "b" && id.bits == 2));
    assert!(matches!(&changes[2], Change::RemoveLog(id, 9) if id.bits == 2));
}

#[test]
fn recovery_applied_again_writes_nothing() {
    let mut store = Tables::default();
    let open = store.insert_run(record("a")).unwrap();
    store.append(open.id, &vec![log(open.id, 4)]).unwrap();
    let mut done = store.insert_run(record("b")).unwrap();
    finish(&mut done);
    store.finish(&done, &vec![]).unwrap();
    let first = Timestamp { nanos: 1_000 };
    store.recover(first);
    let ended = store.get(open.id).unwrap();
    assert_eq!(ended.finished_at, Some(first));
    assert_eq!(ended.last_log_sequence, 4);
    assert_eq!((ended.job.as_str(), ended.admission_sequence), ("a", open.admission_sequence));
    assert_eq!(store.get(done.id).unwrap(), done);
    assert!(recover(&store.stored(), Timestamp { nanos: 2_000 }).is_empty());
}

#[test]
fn retention_applied_again_removes_nothing() {
    let mut store = Tables::default();
    for (n, job) in ["a", "b", "a", "a", "b"].iter().enumerate() {
        let mut run = store.insert_run(record(job)).unwrap();
        if n != 3 {
            finish(&mut run);
            store.finish(&run, &vec![log(run.id, 1), log(run.id, 2)]).unwrap();
        }
    }
    let at = now();
    let all = Retention::default();
    for retention in [
        Retention { runs: 3, ..all },
        Retention { per_job: 1, ..all },
        Retention { bytes: 0, ..all },
    ] {
        store.prune(at, &retention);
        assert!(prune(&store.stored(), at, &retention).is_empty());
    }
    assert_eq!(store.runs("a", None, 10).unwrap().items.len(), 1);
    assert_eq!(store.runs("b", None, 10).unwrap().items.len(), 0);
}

#[test]
fn calls_end_in_results() {
    assert_eq!(call_result(CallEnd::Answered(Ok(4))), Ok(4));
    assert_eq!(call_result::<u8>(CallEnd::Answered(Err(Error::NotFound))), Err(Error::NotFound));
    assert_eq!(
        call_result::<u8>(CallEnd::Panicked),
        Err(Error::Journal("store_panicked".to_string()))
    );
    assert_eq!(call_result::<u8>(CallEnd::Closed), Err(Error::Stopped));
    assert_eq!(call_result::<u8>(CallEnd::Late), Err(Error::TimedOut));
}
