use chrono::{TimeZone, Utc};
use nyanpasu_jobs::admission::Launch;
use nyanpasu_jobs::client::{cancelled, shutdown_report, waited};
use nyanpasu_jobs::encoding::{Bounded, Encoded};
use nyanpasu_jobs::job::{conclude, Decoding, Ending, Entrance};
use nyanpasu_jobs::journal::{admit_record, append_logs, finish_record, Change, StoredLog, StoredRun};
use nyanpasu_jobs::logging::{Ingress, Level, Limited};
use nyanpasu_jobs::maintenance::{Maintenance, UpkeepAction, UpkeepEvent};
use nyanpasu_jobs::pages::logs_page;
use nyanpasu_jobs::retention::prune;
use nyanpasu_jobs::runner::{Action, Event, Run};
use nyanpasu_jobs::service::{Answer, Msg};
use nyanpasu_jobs::sorted::{Present, SortedMap};
use nyanpasu_jobs::state::State;
use nyanpasu_jobs::time::{Moment, Reading, Span, Timestamp};
use nyanpasu_jobs::{
    CancelResult, Cancellation, Completion, Error, Inspection, Job, JobDefinition, JobError,
    JournalState, Limits, LogPolicy, Outcome, Output, Page, Retention, RunId, RunLog, RunRecord,
    RunState, Schedule, ShutdownReport, Trigger,
};
use std::cell::RefCell;
use std::collections::{BTreeMap, VecDeque};

const SECOND: u128 = 1_000_000_000;

/// What a handler does in a test.
#[derive(Clone)]
enum Plan {
    Return(String),
    Fail(JobError),
    Panic,
    Hold,
}

/// An owner of a run, with what it still has to do.
struct Owner {
    run: Option<Run>,
    todo: VecDeque<Action>,
    counted: bool,
}

/// A service with tables, a clock and handlers that a test controls.
struct World {
    state: State,
    now: Reading,
    runs: BTreeMap<RunId, RunRecord>,
    logs: BTreeMap<(RunId, u64), RunLog>,
    sequence: u64,
    owners: BTreeMap<RunId, Owner>,
    replies: BTreeMap<RunId, Result<(), Error>>,
    plans: BTreeMap<String, Plan>,
    policy: LogPolicy,
    ingress: Ingress,
    pauses: Vec<u64>,
    effects: usize,
    saves: usize,
    finishes: usize,
    fail_save: bool,
    uncertain_save: bool,
    fail_finish: bool,
    hold_save: bool,
    hold_append: bool,
    hold_finish: bool,
    hold_pause: bool,
    hold_drain: bool,
}

fn at(year: i32, month: u32, day: u32) -> Timestamp {
    let start = Utc.with_ymd_and_hms(year, month, day, 0, 0, 0).unwrap();
    Timestamp::joined(start.timestamp(), 0)
}

fn decode(job: &Job, text: &str) -> Decoding {
    if job.definition.key == "bad" {
        return Decoding::Panicked;
    }
    if job.definition.key == "count" || job.definition.key == "double" {
        return match serde_json::from_str::<u32>(text) {
            Ok(_) => Decoding::Accepted,
            Err(e) => Decoding::Refused(e.to_string()),
        };
    }
    Decoding::Accepted
}

fn job(key: &str) -> Job {
    Job::new(JobDefinition::manual(key), Ok("null".to_string())).unwrap()
}

fn scheduled(key: &str, schedule: Schedule) -> Job {
    let mut made = job(key);
    made.definition.schedule = schedule;
    made
}

impl World {
    fn new(limits: Limits) -> Self {
        let now = Reading { wall: at(2026, 9, 7), mono: Moment { nanos: 0 } };
        World {
            state: State::new(limits, now.mono),
            now,
            runs: BTreeMap::new(),
            logs: BTreeMap::new(),
            sequence: 0,
            owners: BTreeMap::new(),
            replies: BTreeMap::new(),
            plans: BTreeMap::new(),
            policy: LogPolicy::default(),
            ingress: Ingress::new(),
            pauses: Vec::new(),
            effects: 0,
            saves: 0,
            finishes: 0,
            fail_save: false,
            uncertain_save: false,
            fail_finish: false,
            hold_save: false,
            hold_append: false,
            hold_finish: false,
            hold_pause: false,
            hold_drain: false,
        }
    }
    fn tell(&mut self, msg: Msg) -> Answer {
        self.state.handle(msg, self.now, decode).answer
    }
    fn advance(&mut self, seconds: u128) {
        self.now.mono.nanos += seconds * SECOND;
        self.now.wall.nanos += (seconds * SECOND) as i128;
    }
    fn reconcile(&mut self, scope: &str, revision: u64, jobs: &[Job]) -> Result<(), Error> {
        let now = self.now.wall;
        let ask = |i: usize| decode(&jobs[i], &jobs[i].input);
        let candidates = self.state.consult(&scope.to_string(), revision, jobs.to_vec(), now, ask);
        match self.tell(Msg::Reconcile(scope.to_string(), revision, candidates)) {
            Answer::Reconciled(answer) => answer,
            _ => unreachable!(),
        }
    }
    fn logs(&self, id: RunId, after: u64, limit: usize) -> Page<RunLog, u64> {
        let rows = self
            .logs
            .range((id, 0)..=(id, u64::MAX))
            .filter(|(key, _)| key.1 > after)
            .map(|(_, log)| (log.clone(), format!("{log:?}").len()))
            .collect();
        let known = self.runs.contains_key(&id);
        logs_page(known, &rows, limit, |log: &RunLog| Ok(log.clone())).unwrap()
    }
    fn plan(&mut self, key: &str, plan: Plan) {
        self.plans.insert(key.to_string(), plan);
    }
    fn submit(&mut self, key: &str, id: RunId, input: Option<&str>) -> Result<(), Error> {
        let input = input.map(|text| text.to_string());
        match self.tell(Msg::Submit(key.to_string(), id, input, Trigger::Manual)) {
            Answer::Submitted(Ok(launch)) => {
                self.launch(launch, true);
                self.pump();
                self.replies.get(&id).cloned().unwrap_or(Ok(()))
            }
            Answer::Submitted(Err(error)) => Err(error),
            _ => unreachable!(),
        }
    }
    fn run_now(&mut self, key: &str) -> Result<RunId, Error> {
        let id = RunId::new_v4();
        self.submit(key, id, None)?;
        Ok(id)
    }
    fn launch(&mut self, launch: Launch, reply: bool) {
        let id = launch.record.id;
        let owner = Owner {
            run: Some(Run::new(launch.record, launch.skip)),
            todo: VecDeque::new(),
            counted: false,
        };
        self.owners.insert(id, owner);
        self.event(id, Event::Begun { reply });
    }
    fn event(&mut self, id: RunId, event: Event) {
        if let Some(owner) = self.owners.get_mut(&id) {
            let (run, actions) = owner.run.take().unwrap().step(event);
            owner.run = Some(run);
            owner.todo.extend(actions);
        }
    }
    fn tick(&mut self) -> (bool, Span) {
        match self.tell(Msg::Tick) {
            Answer::Ticked(done, wait) => {
                for launch in done.launches {
                    self.launch(launch, false);
                }
                self.pump();
                (done.maintain, wait)
            }
            _ => unreachable!(),
        }
    }
    /// Does what owners have to do, as far as nothing is held.
    fn pump(&mut self) {
        loop {
            let mut moved = false;
            let ids: Vec<RunId> = self.owners.keys().copied().collect();
            for id in ids {
                moved |= self.one(id);
            }
            if !moved {
                return;
            }
        }
    }
    fn held(&mut self, id: RunId) -> bool {
        let owner = self.owners.get_mut(&id).unwrap();
        let fresh = !owner.counted;
        match owner.todo.front() {
            None => return true,
            Some(Action::Save(_)) => {
                owner.counted = true;
                self.saves += fresh as usize;
                self.hold_save
            }
            Some(Action::Finish(..)) => {
                owner.counted = true;
                self.finishes += fresh as usize;
                self.hold_finish
            }
            Some(Action::Append(_)) => self.hold_append,
            Some(Action::Pause(_)) => self.hold_pause,
            Some(Action::Drain) => self.hold_drain,
            Some(_) => false,
        }
    }
    fn one(&mut self, id: RunId) -> bool {
        if !self.owners.contains_key(&id) || self.held(id) {
            return false;
        }
        let owner = self.owners.get_mut(&id).unwrap();
        owner.counted = false;
        match owner.todo.pop_front().unwrap() {
            Action::Save(record) => {
                let result = if self.fail_save {
                    Err(Error::AdmissionFailed("injected admission failure".to_string()))
                } else {
                    self.save(record)
                };
                let result = match result {
                    Ok(_) if self.uncertain_save => {
                        Err(Error::Journal("commit acknowledgement lost".to_string()))
                    }
                    other => other,
                };
                self.event(id, Event::Admitted(result));
            }
            Action::Reply(answer) => {
                assert!(self.replies.insert(id, answer).is_none());
            }
            Action::Fault => {
                self.tell(Msg::Fault(id));
            }
            Action::Pause(seconds) => {
                self.pauses.push(seconds);
                self.event(id, Event::Woken);
            }
            Action::Check => self.event(id, Event::Healthy(true)),
            Action::Read => {
                let found = self.runs.get(&id).cloned();
                self.event(id, Event::Got(Ok(found)));
            }
            Action::Started(record) => match self.tell(Msg::Started(id, record)) {
                Answer::Started(start) => self.event(id, Event::Decided(start)),
                _ => unreachable!(),
            },
            Action::OpenLogs => self.ingress.register(&self.policy, id),
            Action::Execute => {
                self.effects += 1;
                let key = self.owners[&id].run.as_ref().unwrap().record.job.clone();
                let ending = match self.plans.get(&key).cloned() {
                    Some(Plan::Return(text)) => Some(Ending::Returned(Ok(text))),
                    Some(Plan::Fail(error)) => Some(Ending::Failed(error)),
                    Some(Plan::Panic) => Some(Ending::Panicked),
                    Some(Plan::Hold) => None,
                    None => Some(Ending::Returned(Ok("null".to_string()))),
                };
                if let Some(ending) = ending {
                    self.end(id, ending);
                }
            }
            Action::Progress(record, uncertain) => {
                self.tell(Msg::Progress(id, record, uncertain));
            }
            Action::Append(batch) => {
                let ok = match append_logs(self.runs.get(&id), &batch) {
                    Ok(changes) => {
                        self.commit(changes);
                        true
                    }
                    Err(_) => false,
                };
                self.event(id, Event::Appended(ok));
            }
            Action::Drain => self.event(id, Event::Drained),
            Action::Seal => {
                let (tail, sequence, dropped) = self.ingress.seal(&self.policy, id);
                let at = self.now.wall;
                self.event(id, Event::Sealed { tail, sequence, dropped, at });
            }
            Action::Finish(record, batch) => {
                let ok = !self.fail_finish
                    && match finish_record(&record, self.runs.get(&id), &batch) {
                        Ok(changes) => {
                            self.commit(changes);
                            true
                        }
                        Err(_) => false,
                    };
                self.event(id, Event::Saved(ok));
            }
            Action::Prune => {
                let retention = self.state.limits.retention;
                self.prune(&retention);
                self.event(id, Event::Pruned(true));
            }
            Action::Done => {
                self.tell(Msg::Done(id));
                self.ingress.remove(&self.policy, id);
                self.owners.remove(&id);
            }
        }
        true
    }
    /// Ends a handler and, unless they are held, its children.
    fn end(&mut self, id: RunId, ending: Ending) {
        self.event(id, Event::Returned(conclude(ending)));
        if !self.hold_drain {
            self.event(id, Event::TaskEnded(true));
        }
    }
    fn save(&mut self, record: RunRecord) -> Result<RunRecord, Error> {
        let known = self.runs.contains_key(&record.id);
        let (saved, changes) = admit_record(record, known, self.sequence)?;
        self.commit(changes);
        Ok(saved)
    }
    fn commit(&mut self, changes: Vec<Change>) {
        for change in changes {
            match change {
                Change::PutRun(record) => {
                    self.runs.insert(record.id, record);
                }
                Change::PutSequence(sequence) => self.sequence = sequence,
                Change::PutLog(log) => {
                    self.logs.insert((log.run_id, log.sequence), log);
                }
                Change::RemoveRun(id) => {
                    self.runs.remove(&id);
                }
                Change::RemoveLog(id, sequence) => {
                    self.logs.remove(&(id, sequence));
                }
                Change::PutIndex(..) | Change::RemoveIndex(..) => {}
            }
        }
    }
    fn prune(&mut self, retention: &Retention) {
        let rows: Vec<StoredRun> = self
            .runs
            .values()
            .map(|record| StoredRun {
                record: record.clone(),
                bytes: 100,
                logs: self
                    .logs
                    .range((record.id, 0)..=(record.id, u64::MAX))
                    .map(|(key, _)| StoredLog { sequence: key.1, bytes: 10 })
                    .collect(),
            })
            .collect();
        let changes = prune(&rows, self.now.wall, retention);
        self.commit(changes);
    }
    /// What a waiter is told when its time is over.
    fn waiting(&mut self, id: RunId) -> Result<Completion, Error> {
        match self.tell(Msg::Watch(id)) {
            Answer::Watched(Some(Some(shown))) => waited(id, Some(&shown), None),
            _ => waited(id, None, self.runs.get(&id)),
        }
    }
    fn wait(&mut self, id: RunId) -> Option<Completion> {
        self.waiting(id).ok()
    }
    fn cancel(&mut self, id: RunId) -> CancelResult {
        match self.tell(Msg::Cancel(id)) {
            Answer::Cancelled(answer) => cancelled(answer, self.runs.get(&id)).unwrap(),
            _ => unreachable!(),
        }
    }
    fn report(&mut self) -> ShutdownReport {
        if self.closed() {
            return shutdown_report(None, true);
        }
        shutdown_report(Some(&self.inspect()), true)
    }
    fn inspect(&mut self) -> Inspection {
        match self.tell(Msg::Inspect) {
            Answer::Inspected(inspection) => inspection,
            _ => unreachable!(),
        }
    }
    fn shutdown(&mut self) -> Vec<RunId> {
        match self.tell(Msg::Shutdown) {
            Answer::Stopping(asked) => asked,
            _ => unreachable!(),
        }
    }
    fn closed(&self) -> bool {
        self.state.stopped()
    }
    fn note(&mut self, id: RunId, target: &str, fields: &[(&str, &str)]) -> bool {
        let Some(mut open) = self.policy.open(Level::Info, target) else {
            return false;
        };
        for (name, value) in fields {
            let mut out = Limited::new(open.max);
            out.write_str(value);
            open.record(name, out);
        }
        let time = self.now.wall;
        self.ingress.note(&self.policy, id, open, time, |log: &RunLog| format!("{log:?}").len())
    }
}

fn decoded<T: serde::de::DeserializeOwned>(completion: &Completion) -> Result<T, Error> {
    completion.decode(|text: &str| serde_json::from_str(text).ok())
}

fn safe_policy() -> LogPolicy {
    let mut names = SortedMap::new();
    names.insert("code".to_string(), Present);
    let mut targets = SortedMap::new();
    targets.insert("safe_job".to_string(), names);
    LogPolicy { targets, ..LogPolicy::default() }
}

#[test]
fn typed_execution_multiple_waiters_late_wait_and_noop_reconcile() {
    let mut world = World::new(Limits::default());
    let double = Job::new(JobDefinition::manual("double"), Ok("3".to_string())).unwrap();
    world.reconcile("default", 1, &[double.clone()]).unwrap();
    let generation = world.inspect().jobs[0].generation;
    world.reconcile("default", 2, &[double]).unwrap();
    assert_eq!(world.inspect().jobs[0].generation, generation);
    world.plan("double", Plan::Return("14".to_string()));
    let id = RunId::new_v4();
    world.submit("double", id, Some("7")).unwrap();
    let a = world.wait(id).unwrap();
    let b = world.wait(id).unwrap();
    assert_eq!(decoded::<u32>(&a).unwrap(), 14);
    assert_eq!(decoded::<u32>(&b).unwrap(), 14);
    assert!(world.inspect().active.is_empty());
    assert_eq!(decoded::<u32>(&world.wait(id).unwrap()).unwrap(), 14);
    assert_eq!(world.cancel(id), CancelResult::AlreadyFinished);
    world.shutdown();
    assert!(world.closed());
}

#[test]
fn typed_definition_and_handle_work_with_injected_store_without_redb() {
    let mut world = World::new(Limits::default());
    let double = Job::new(JobDefinition::manual("double"), Ok("3".to_string())).unwrap();
    world.reconcile("default", 1, &[double]).unwrap();
    world.plan("double", Plan::Return("14".to_string()));
    let id = RunId::new_v4();
    world.submit("double", id, Some("7")).unwrap();
    assert_eq!(decoded::<u32>(&world.wait(id).unwrap()).unwrap(), 14);
    world.shutdown();
    assert!(world.closed());
}

#[test]
fn wait_timeout_and_delete_recreate_never_release_running_key() {
    let mut world = World::new(Limits::default());
    world.reconcile("default", 1, &[job("held")]).unwrap();
    world.plan("held", Plan::Hold);
    let run = world.run_now("held").unwrap();
    assert_eq!(world.waiting(run).unwrap_err(), Error::WaitTimedOut(run));
    assert_eq!(world.cancel(run), CancelResult::Unsupported);
    world.reconcile("default", 2, &[]).unwrap();
    world.reconcile("default", 3, &[job("held")]).unwrap();
    assert_eq!(world.run_now("held").unwrap_err(), Error::Busy);
    world.end(run, Ending::Returned(Ok("42".to_string())));
    world.pump();
    assert_eq!(decoded::<i32>(&world.wait(run).unwrap()).unwrap(), 42);
    world.shutdown();
    assert!(world.closed());
}

#[test]
fn cancellation_requires_ack_and_success_wins_race() {
    let mut world = World::new(Limits::default());
    let mut cancel = job("cancel");
    cancel.definition.cancellation = Cancellation::Cooperative;
    world.reconcile("default", 1, &[cancel]).unwrap();
    world.plan("cancel", Plan::Hold);
    let run = world.run_now("cancel").unwrap();
    assert_eq!(world.cancel(run), CancelResult::Requested);
    assert_eq!(world.cancel(run), CancelResult::Requested);
    assert_eq!(world.run_now("cancel").unwrap_err(), Error::Busy);
    assert!(matches!(world.inspect().active[0].state, RunState::Cancelling));
    world.end(run, Ending::Returned(Ok("7".to_string())));
    world.pump();
    assert_eq!(world.wait(run).unwrap().outcome, Outcome::Succeeded);
    world.shutdown();
    assert!(world.closed());
}

#[test]
fn cooperative_cancelled_result_and_panic_do_not_leak_capacity() {
    let mut world = World::new(Limits::default());
    let mut cancel = job("cancel");
    cancel.definition.cancellation = Cancellation::Cooperative;
    world.reconcile("default", 1, &[cancel, job("panic")]).unwrap();
    world.plan("cancel", Plan::Hold);
    world.plan("panic", Plan::Panic);
    let run = world.run_now("cancel").unwrap();
    assert_eq!(world.cancel(run), CancelResult::Requested);
    world.end(run, Ending::Failed(JobError::cancelled()));
    world.pump();
    assert_eq!(world.wait(run).unwrap().outcome, Outcome::Cancelled);
    let run = world.run_now("panic").unwrap();
    assert!(matches!(world.wait(run).unwrap().outcome, Outcome::Failed(e) if e.code == "panicked"));
    world.shutdown();
    assert!(world.closed());
}

#[test]
fn custom_input_decoder_panic_is_a_validation_error_not_an_actor_crash() {
    let mut world = World::new(Limits::default());
    assert!(matches!(world.reconcile("default", 1, &[job("bad")]), Err(Error::Invalid(_))));
    assert!(world.inspect().jobs.is_empty());
    assert_eq!(
        world.inspect().scopes.items[0].1.last_error.as_deref(),
        Some("invalid definition or input: input decoder panicked")
    );
    world.shutdown();
    assert!(world.closed());
}

#[test]
fn duplicate_id_and_invalid_input_never_repeat_side_effects() {
    let mut world = World::new(Limits::default());
    let count = Job::new(JobDefinition::manual("count"), Ok("0".to_string())).unwrap();
    world.reconcile("default", 1, &[count]).unwrap();
    let refused = world.submit("count", RunId::new_v4(), Some("\"wrong type\""));
    assert!(matches!(refused, Err(Error::Invalid(_))));
    let run = world.run_now("count").unwrap();
    assert!(world.inspect().active.is_empty());
    assert_eq!(world.effects, 1);
    world.replies.clear();
    assert_eq!(world.submit("count", run, None), Err(Error::AlreadySubmitted(run)));
    assert_eq!(world.effects, 1);
    assert!(world.inspect().active.is_empty());
    world.shutdown();
    assert!(world.closed());
}

#[test]
fn panic_waits_for_delegated_work_and_shutdown_reports_it() {
    let mut world = World::new(Limits::default());
    world.reconcile("default", 1, &[job("panic")]).unwrap();
    world.plan("panic", Plan::Panic);
    world.hold_drain = true;
    let run = world.run_now("panic").unwrap();
    world.shutdown();
    let report = world.report();
    assert!(!report.closed);
    assert_eq!(report.remaining, vec![run]);
    let inspection = world.inspect();
    assert!(inspection.execution_uncertain.contains(&run));
    assert!(inspection.active[0].completion().is_none());
    world.hold_drain = false;
    world.event(run, Event::TaskEnded(true));
    world.pump();
    assert!(matches!(world.wait(run).unwrap().outcome, Outcome::Failed(e) if e.code == "panicked"));
    assert!(world.closed());
}

#[test]
fn blocking_work_is_owned_until_real_completion() {
    let mut world = World::new(Limits::default());
    world.reconcile("default", 1, &[job("blocking")]).unwrap();
    world.plan("blocking", Plan::Hold);
    let run = world.run_now("blocking").unwrap();
    assert_eq!(world.cancel(run), CancelResult::Unsupported);
    assert_eq!(world.run_now("blocking").unwrap_err(), Error::Busy);
    world.end(run, Ending::Returned(Ok("null".to_string())));
    world.pump();
    assert_eq!(world.wait(run).unwrap().outcome, Outcome::Succeeded);
    world.shutdown();
    assert!(world.closed());
}

#[test]
fn failed_admission_has_no_handler_effect() {
    let mut world = World::new(Limits::default());
    world.reconcile("default", 1, &[job("job")]).unwrap();
    world.fail_save = true;
    assert!(matches!(world.run_now("job"), Err(Error::AdmissionFailed(_))));
    assert_eq!(world.effects, 0);
    assert!(world.runs.is_empty());
    assert!(world.owners.is_empty());
    world.fail_save = false;
    assert!(!world.inspect().journal_degraded);
    world.shutdown();
    assert!(world.closed());
}

#[test]
fn finish_failure_preserves_success_closes_admission_and_retries_only_journal() {
    let mut world = World::new(Limits::default());
    world.reconcile("default", 1, &[job("job")]).unwrap();
    world.plan("job", Plan::Return("55".to_string()));
    world.fail_finish = true;
    world.hold_pause = true;
    let run = world.run_now("job").unwrap();
    let completion = world.wait(run).unwrap();
    assert_eq!(completion.outcome, Outcome::Succeeded);
    assert_eq!(decoded::<i32>(&completion).unwrap(), 55);
    assert_eq!(completion.journal, JournalState::Degraded("commit_failed".to_string()));
    assert!(matches!(world.run_now("job"), Err(Error::Journal(_))));
    for _ in 0..6 {
        world.hold_pause = false;
        assert!(world.one(run));
        world.hold_pause = true;
        world.pump();
    }
    assert_eq!(world.pauses, vec![1, 2, 4, 8, 16, 30]);
    world.fail_finish = false;
    world.hold_pause = false;
    world.pump();
    assert_eq!(world.pauses, vec![1, 2, 4, 8, 16, 30, 30]);
    assert!(world.inspect().active.is_empty());
    assert!(!world.inspect().journal_degraded);
    assert_eq!(world.wait(run).unwrap().journal, JournalState::Durable);
    assert_eq!(world.effects, 1);
    assert_eq!(world.finishes, 8);
    assert!(world.run_now("job").is_ok());
    world.shutdown();
    assert!(world.closed());
}

#[test]
fn blocked_admission_does_not_block_inspect_cancel_or_shutdown() {
    let mut world = World::new(Limits::default());
    world.reconcile("default", 1, &[job("job")]).unwrap();
    world.hold_save = true;
    let id = RunId::new_v4();
    world.submit("job", id, None).unwrap();
    assert_eq!(world.cancel(id), CancelResult::AdmissionPending);
    assert_eq!(world.inspect().active.len(), 1);
    let owner = world.owners.get_mut(&id).unwrap();
    let save = owner.todo.pop_front().unwrap();
    world.event(id, Event::ControlTimeout);
    world.pump();
    assert_eq!(world.replies.get(&id), Some(&Err(Error::AdmissionUnknown(id))));
    world.owners.get_mut(&id).unwrap().todo.push_front(save);
    world.shutdown();
    assert!(!world.closed());
    world.hold_save = false;
    world.pump();
    assert_eq!(world.wait(id).unwrap().outcome, Outcome::Cancelled);
    assert_eq!(world.effects, 0);
    assert!(world.closed());
}

#[test]
fn blocked_terminal_write_returns_degraded_without_starting_another_write() {
    let mut world = World::new(Limits::default());
    world.reconcile("default", 1, &[job("job")]).unwrap();
    world.plan("job", Plan::Return("9".to_string()));
    world.hold_finish = true;
    let run = world.run_now("job").unwrap();
    let owner = world.owners.get_mut(&run).unwrap();
    let write = owner.todo.pop_front().unwrap();
    world.event(run, Event::FinalizationTimeout);
    world.pump();
    let completion = world.wait(run).unwrap();
    assert_eq!(decoded::<i32>(&completion).unwrap(), 9);
    assert_eq!(completion.journal, JournalState::Degraded("finalization_timeout".to_string()));
    assert_eq!(world.finishes, 1);
    let owner = world.owners.get_mut(&run).unwrap();
    owner.todo.push_front(write);
    owner.counted = true;
    world.hold_finish = false;
    world.pump();
    assert!(world.inspect().active.is_empty());
    assert_eq!(world.finishes, 1);
    assert_eq!(world.wait(run).unwrap().journal, JournalState::Durable);
    world.shutdown();
    assert!(world.closed());
}

#[test]
fn output_size_or_serializer_failure_does_not_change_business_success() {
    let mut sink = Bounded::new(8);
    let text = format!("\"{}\"", "x".repeat(1000));
    assert_eq!(sink.write(text.as_bytes()), None);
    let large = conclude(Ending::Returned(sink.into_text(Encoded::Failed)));
    assert_eq!(large.outcome, Outcome::Succeeded);
    assert_eq!(large.output, Output::Unavailable("size_limit".to_string()));
    let panics = conclude(Ending::Returned(Bounded::new(8).into_text(Encoded::Failed)));
    assert_eq!(panics.outcome, Outcome::Succeeded);
    assert_eq!(panics.output, Output::Unavailable("encoding_failed".to_string()));
    let mut sink = Bounded::new(8);
    assert_eq!(sink.write(b"[1,"), Some(3));
    assert_eq!(sink.write(b"2]"), Some(2));
    let fits = conclude(Ending::Returned(sink.into_text(Encoded::Complete)));
    assert_eq!(fits.output, Output::Json("[1,2]".to_string()));
}

#[test]
fn uncertain_admission_is_read_back_without_a_second_admission_or_effect() {
    let mut world = World::new(Limits::default());
    world.reconcile("default", 1, &[job("job")]).unwrap();
    world.uncertain_save = true;
    let id = RunId::new_v4();
    assert_eq!(world.submit("job", id, None), Err(Error::AdmissionUnknown(id)));
    assert_eq!(world.wait(id).unwrap().outcome, Outcome::Succeeded);
    assert_eq!(world.saves, 1);
    assert_eq!(world.effects, 1);
    world.shutdown();
    assert!(world.closed());
}

#[test]
fn scoped_tracing_crosses_children_and_blocking_without_secrets_or_global_filter() {
    let mut world = World::new(Limits::default());
    world.policy = safe_policy();
    world.reconcile("default", 1, &[job("logged")]).unwrap();
    world.plan("logged", Plan::Hold);
    let run = world.run_now("logged").unwrap();
    assert!(world.note(
        run,
        "safe_job",
        &[("code", "start"), ("token", "secret"), ("message", "sensitive message")]
    ));
    assert!(world.note(run, "safe_job", &[("code", "child")]));
    assert!(!world.note(run, "unapproved", &[("code", "must not store")]));
    world.end(run, Ending::Returned(Ok("null".to_string())));
    world.pump();
    let logs: Vec<RunLog> = world.logs.values().cloned().collect();
    assert_eq!(logs.len(), 2);
    for log in logs {
        assert_eq!(log.fields.items.len(), 1);
        assert!(!format!("{log:?}").contains("secret"));
    }
    world.shutdown();
    assert!(world.closed());
}

#[test]
fn overflow_is_counted_and_sealed_context_cannot_append_after_wait() {
    let mut world = World::new(Limits::default());
    world.policy = LogPolicy { queue_entries: 2, run_entries: 3, ..safe_policy() };
    world.reconcile("default", 1, &[job("burst")]).unwrap();
    world.plan("burst", Plan::Hold);
    let run = world.run_now("burst").unwrap();
    let mut entrance = Entrance::new();
    assert!(entrance.enter().is_ok());
    for i in 0..20 {
        assert!(world.note(run, "safe_job", &[("code", &format!("{i}"))]));
    }
    world.end(run, Ending::Returned(Ok("null".to_string())));
    entrance.close();
    // The run keeps its buffer until it is done: late events meet a sealed one.
    let owner = world.owners.get_mut(&run).unwrap();
    assert!(matches!(owner.todo.front(), Some(Action::Progress(..))));
    world.hold_finish = true;
    world.pump();
    assert!(!world.note(run, "safe_job", &[("code", "late")]));
    world.hold_finish = false;
    world.pump();
    let record = world.runs[&run].clone();
    assert_eq!(record.last_log_sequence, 20);
    assert_eq!(record.dropped_log_count, 18);
    let first = world.logs(run, 0, 1);
    assert_eq!(first.items.len(), 1);
    let second = world.logs(run, first.next.unwrap(), 1);
    assert_eq!(second.items.len(), 1);
    assert!(second.next.is_none());
    assert!(!world.note(run, "safe_job", &[("code", "late")]));
    assert_eq!(world.logs(run, 0, 50).items.len(), 2);
    assert_eq!(entrance.enter(), Err(Error::Stopped));
    world.shutdown();
    assert!(world.closed());
}

#[test]
fn blocked_log_flush_does_not_block_business_and_reports_finalization_degraded() {
    let mut world = World::new(Limits::default());
    world.policy = safe_policy();
    world.reconcile("default", 1, &[job("job")]).unwrap();
    world.plan("job", Plan::Hold);
    let run = world.run_now("job").unwrap();
    assert!(world.note(run, "safe_job", &[("code", "fetch")]));
    let batch = world.ingress.drain(&world.policy, run);
    world.event(run, Event::LogTimer(batch));
    let owner = world.owners.get_mut(&run).unwrap();
    let write = owner.todo.pop_front().unwrap();
    assert!(matches!(&write, Action::Append(logs) if logs.len() == 1));
    world.event(run, Event::AppendTimeout);
    world.end(run, Ending::Returned(Ok("1".to_string())));
    world.pump();
    assert!(world.inspect().journal_degraded);
    assert_eq!(world.finishes, 0);
    world.event(run, Event::FinalizationTimeout);
    world.pump();
    let result = world.wait(run).unwrap();
    assert_eq!(result.outcome, Outcome::Succeeded);
    assert_eq!(result.journal, JournalState::Degraded("log_flush_timeout".to_string()));
    world.owners.get_mut(&run).unwrap().todo.push_front(write);
    world.pump();
    assert!(world.inspect().active.is_empty());
    assert_eq!(world.logs.len(), 1);
    assert_eq!(world.wait(run).unwrap().journal, JournalState::Durable);
    world.shutdown();
    assert!(world.closed());
}

#[test]
fn interval_first_delay_manual_anchor_noop_reconcile_and_missed_ticks() {
    let mut world = World::new(Limits::default());
    let interval = scheduled("interval", Schedule::Interval { every_ms: 10_000 });
    world.reconcile("default", 1, &[interval.clone()]).unwrap();
    world.tick();
    assert_eq!(world.effects, 0);
    world.advance(4);
    world.run_now("interval").unwrap();
    assert!(world.inspect().active.is_empty());
    world.reconcile("default", 2, &[interval]).unwrap();
    world.advance(6);
    world.tick();
    assert_eq!(world.effects, 2);
    assert!(world.inspect().active.is_empty());
    world.advance(37);
    world.tick();
    assert_eq!(world.inspect().missed_trigger_count, 1);
    assert_eq!(world.effects, 2);
    world.advance(3);
    world.tick();
    assert_eq!(world.effects, 3);
    world.shutdown();
    assert!(world.closed());
}

#[test]
fn once_manual_run_does_not_consume_schedule_and_reconcile_fences_old_deadline() {
    let mut world = World::new(Limits::default());
    let once = scheduled("once", Schedule::Once { delay_ms: 10_000 });
    world.reconcile("default", 1, &[once.clone()]).unwrap();
    world.run_now("once").unwrap();
    world.advance(4);
    world.reconcile("default", 2, &[]).unwrap();
    world.reconcile("default", 3, &[once]).unwrap();
    world.advance(6);
    world.tick();
    assert_eq!(world.effects, 1);
    world.advance(4);
    world.tick();
    assert_eq!(world.effects, 2);
    assert!(world.inspect().jobs[0].next_run_at.is_none());
    world.advance(100);
    world.tick();
    assert_eq!(world.effects, 2);
    world.shutdown();
    assert!(!world.closed());
    world.tell(Msg::MaintenanceDone(RunId { bits: 0 }));
    assert!(world.closed());
}

#[test]
fn invalid_scope_snapshot_is_atomic_and_cannot_delete_another_owner() {
    let mut world = World::new(Limits::default());
    let good = job("good");
    world.reconcile("default", 1, &[good.clone()]).unwrap();
    let bad = scheduled("good", Schedule::Interval { every_ms: 0 });
    assert!(world.reconcile("default", 2, &[bad]).is_err());
    let inspection = world.inspect();
    assert_eq!(inspection.jobs.len(), 1);
    let scope = inspection.scopes.get(&"default".to_string()).unwrap();
    assert_eq!(scope.applied_revision, Some(1));
    assert_eq!(scope.source_revision, 2);
    assert_eq!(scope.last_error.as_deref(), Some("invalid definition or input: zero interval"));
    assert_eq!(world.reconcile("default", 1, &[]), Err(Error::StaleRevision));
    let mut other = good.clone();
    other.definition.scope = "other".to_string();
    assert_eq!(
        world.reconcile("other", 1, &[other]),
        Err(Error::Invalid("job belongs to another scope".to_string()))
    );
    world.reconcile("other", 2, &[]).unwrap();
    assert_eq!(world.inspect().jobs.len(), 1);
    assert_eq!(
        world.reconcile("default", 3, &[good.clone(), good.clone()]),
        Err(Error::Invalid("scope/key mismatch".to_string()))
    );
    world.reconcile("default", 3, &[good.clone()]).unwrap();
    world.reconcile("default", 3, &[good]).unwrap();
    assert_eq!(
        world.reconcile("default", 3, &[]),
        Err(Error::Invalid("same revision changed contents".to_string()))
    );
    world.shutdown();
    assert_eq!(world.reconcile("default", 4, &[]), Err(Error::ShuttingDown));
    assert!(world.closed());
}

#[test]
fn cron_clock_forward_skips_missed_and_rollback_does_not_replay() {
    let mut world = World::new(Limits::default());
    let start = world.now.wall;
    let minute = 60_000_000_000i128;
    let cron = scheduled(
        "cron",
        Schedule::Cron { expression: "* * * * *".to_string(), timezone: "UTC".to_string() },
    );
    world.reconcile("default", 1, &[cron]).unwrap();
    world.now.mono.nanos += 5 * SECOND;
    world.now.wall = Timestamp { nanos: start.nanos + minute };
    world.tick();
    assert_eq!(world.effects, 1);
    assert!(world.inspect().active.is_empty());
    world.now.mono.nanos += 5 * SECOND;
    world.now.wall = start;
    world.tick();
    assert_eq!(world.effects, 1);
    assert_eq!(
        world.inspect().jobs[0].next_run_at,
        Some(Timestamp { nanos: start.nanos + 2 * minute })
    );
    world.now.mono.nanos += 5 * SECOND;
    world.now.wall = Timestamp { nanos: start.nanos + 10 * minute };
    world.tick();
    assert_eq!(world.inspect().missed_trigger_count, 1);
    assert_eq!(world.effects, 1);
    world.shutdown();
    assert!(world.closed());
}

#[test]
fn scheduled_busy_is_journaled_and_global_capacity_never_creates_a_queue() {
    let mut world = World::new(Limits { concurrency: 2, ..Limits::default() });
    let held = scheduled("held", Schedule::Interval { every_ms: 10_000 });
    world.reconcile("default", 1, &[held]).unwrap();
    world.plan("held", Plan::Hold);
    let run = world.run_now("held").unwrap();
    world.advance(10);
    world.tick();
    let skipped = world
        .runs
        .values()
        .filter(|r| r.completion().is_some_and(|c| c.outcome == Outcome::Skipped))
        .count();
    assert_eq!(skipped, 1);
    assert!(world.inspect().active.len() <= 2);
    assert_eq!(world.run_now("held").unwrap_err(), Error::Busy);
    world.hold_save = true;
    world.advance(10);
    world.tick();
    assert_eq!(world.inspect().active.len(), 2);
    world.advance(10);
    world.tick();
    assert_eq!(world.inspect().active.len(), 2);
    assert_eq!(world.inspect().dropped_trigger_count, 1);
    world.hold_save = false;
    world.end(run, Ending::Returned(Ok("null".to_string())));
    world.pump();
    assert_eq!(world.wait(run).unwrap().outcome, Outcome::Succeeded);
    assert_eq!(world.effects, 1);
    world.shutdown();
    assert!(world.closed());
}

#[test]
fn idle_retention_removes_expired_history_without_another_job() {
    let retention = Retention { age: Span::from_secs(30), ..Retention::default() };
    let mut world = World::new(Limits { retention, ..Limits::default() });
    world.reconcile("default", 1, &[job("job")]).unwrap();
    let run = world.run_now("job").unwrap();
    assert!(world.runs.contains_key(&run));
    world.advance(59);
    assert!(!world.tick().0);
    world.advance(61);
    let (maintain, wait) = world.tick();
    assert!(maintain);
    assert_eq!(wait, Span::from_secs(5));
    let mut upkeep = Maintenance::new();
    assert_eq!(upkeep.step(UpkeepEvent::Begun), vec![UpkeepAction::Prune]);
    assert_eq!(upkeep.step(UpkeepEvent::Timeout), vec![UpkeepAction::Fault]);
    world.tell(Msg::Fault(upkeep.id));
    assert!(matches!(world.run_now("job"), Err(Error::Journal(_))));
    assert_eq!(
        upkeep.step(UpkeepEvent::Pruned(false)),
        vec![UpkeepAction::Fault, UpkeepAction::Pause(1)]
    );
    assert_eq!(upkeep.step(UpkeepEvent::Woken), vec![UpkeepAction::Prune]);
    let retention = world.state.limits.retention;
    world.prune(&retention);
    assert_eq!(upkeep.step(UpkeepEvent::Pruned(true)), vec![UpkeepAction::Done]);
    world.tell(Msg::MaintenanceDone(upkeep.id));
    assert_eq!(world.waiting(run).unwrap_err(), Error::NotFound);
    assert_eq!(cancelled(None, None).unwrap_err(), Error::NotFound);
    assert!(world.run_now("job").is_ok());
    world.shutdown();
    assert_eq!(
        world.report(),
        ShutdownReport { remaining: vec![], journal_degraded: false, closed: true }
    );
    assert!(!shutdown_report(None, false).closed);
}

#[test]
fn submissions_say_why_they_are_refused() {
    let mut world = World::new(Limits { concurrency: 1, input_bytes: 8, ..Limits::default() });
    world.reconcile("default", 1, &[job("a"), job("b")]).unwrap();
    assert_eq!(world.run_now("missing").unwrap_err(), Error::NotFound);
    assert_eq!(
        world.submit("a", RunId::new_v4(), Some("123456789")),
        Err(Error::Invalid("input limit".to_string()))
    );
    world.plan("a", Plan::Hold);
    let run = world.run_now("a").unwrap();
    assert_eq!(world.submit("a", run, None), Err(Error::AlreadySubmitted(run)));
    assert_eq!(world.run_now("b").unwrap_err(), Error::Busy);
    world.tell(Msg::Fault(RunId { bits: 9 }));
    assert_eq!(
        world.run_now("b").unwrap_err(),
        Error::Journal("admission closed".to_string())
    );
    world.tell(Msg::Done(RunId { bits: 9 }));
    world.shutdown();
    assert_eq!(world.run_now("b").unwrap_err(), Error::ShuttingDown);
    assert_eq!(world.tick().1, Span::from_secs(5));
}

#[test]
fn shutdown_asks_cooperative_runs_to_stop() {
    let mut world = World::new(Limits::default());
    let mut polite = job("polite");
    polite.definition.cancellation = Cancellation::Cooperative;
    world.reconcile("default", 1, &[polite, job("stubborn")]).unwrap();
    world.plan("polite", Plan::Hold);
    world.plan("stubborn", Plan::Hold);
    let polite = world.run_now("polite").unwrap();
    let stubborn = world.run_now("stubborn").unwrap();
    assert_eq!(world.shutdown(), vec![polite]);
    assert!(!world.closed());
    world.end(polite, Ending::Failed(JobError::cancelled()));
    world.end(stubborn, Ending::Failed(JobError::new("late", "too late")));
    world.pump();
    assert_eq!(world.wait(polite).unwrap().outcome, Outcome::Cancelled);
    assert!(matches!(world.wait(stubborn).unwrap().outcome, Outcome::Failed(e) if e.code == "late"));
    assert!(world.closed());
}

#[test]
fn failing_task_and_failing_batch_are_told_apart() {
    let mut world = World::new(Limits::default());
    world.policy = safe_policy();
    world.reconcile("default", 1, &[job("job")]).unwrap();
    world.plan("job", Plan::Hold);
    let run = world.run_now("job").unwrap();
    assert!(world.note(run, "safe_job", &[("code", "one")]));
    let batch = world.ingress.drain(&world.policy, run);
    world.event(run, Event::LogTimer(batch));
    world.owners.get_mut(&run).unwrap().todo.clear();
    world.event(run, Event::Appended(false));
    world.pump();
    assert!(world.inspect().journal_degraded);
    world.event(run, Event::TaskEnded(false));
    world.pump();
    let completion = world.wait(run).unwrap();
    assert_eq!(
        completion.outcome,
        Outcome::Failed(JobError::new("panicked", "Execution wrapper panicked"))
    );
    assert_eq!(completion.output, Output::Nothing);
    assert_eq!(world.logs.len(), 1);
    assert!(!world.inspect().journal_degraded);
}

#[test]
fn plans_of_failing_handlers_keep_their_errors() {
    let mut world = World::new(Limits::default());
    world.reconcile("default", 1, &[job("job")]).unwrap();
    world.plan("job", Plan::Fail(JobError::new("boom", "it failed")));
    let run = world.run_now("job").unwrap();
    let completion = world.wait(run).unwrap();
    assert_eq!(completion.outcome, Outcome::Failed(JobError::new("boom", "it failed")));
    assert_eq!(
        decoded::<u8>(&completion).unwrap_err(),
        Error::OutputUnavailable("no_output".to_string())
    );
}

#[test]
fn decoders_are_asked_only_as_far_as_a_snapshot_comes() {
    let mut world = World::new(Limits::default());
    world.reconcile("default", 5, &[job("old")]).unwrap();
    let asked = RefCell::new(Vec::new());
    let ask = |i: usize| {
        asked.borrow_mut().push(i);
        if i == 2 { Decoding::Refused("no".to_string()) } else { Decoding::Accepted }
    };
    let mut nameless = job("");
    nameless.input = "1".to_string();
    let now = world.now.wall;
    let scope = "default".to_string();
    // A stale revision asks none, and a refusal is the last that is asked.
    let jobs = vec![job("a"), job("b"), job("c"), job("d")];
    let offered = world.state.consult(&scope, 4, jobs.clone(), now, ask);
    assert!(asked.borrow().is_empty());
    assert!(offered.iter().all(|one| matches!(one.decoding, Decoding::Accepted)));
    let offered = world.state.consult(&scope, 6, jobs, now, ask);
    assert_eq!(*asked.borrow(), vec![0, 1, 2]);
    let answer = world.tell(Msg::Reconcile(scope.clone(), 6, offered));
    assert!(matches!(answer, Answer::Reconciled(Err(Error::Invalid(reason))) if reason == "no"));
    // What is wrong with a name or a repeated key ends the questions too.
    asked.borrow_mut().clear();
    world.state.consult(&scope, 7, vec![job("a"), nameless, job("b")], now, ask);
    assert_eq!(*asked.borrow(), vec![0]);
    asked.borrow_mut().clear();
    world.state.consult(&scope, 7, vec![job("a"), job("a"), job("b")], now, ask);
    assert_eq!(*asked.borrow(), vec![0, 1]);
    world.shutdown();
    asked.borrow_mut().clear();
    world.state.consult(&scope, 8, vec![job("a")], now, ask);
    assert!(asked.borrow().is_empty());
}
