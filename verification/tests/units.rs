use nyanpasu_jobs::job::{blocking_panicked, conclude, input_invalid, Ending};
use nyanpasu_jobs::logging::{Ingress, Level, Limited, RunVisitor};
use nyanpasu_jobs::pages::runs_query;
use nyanpasu_jobs::runner::{Action, Event, Run};
use nyanpasu_jobs::sorted::{Present, SortedMap};
use nyanpasu_jobs::text::{compare_text, decimal_text, parse_unsigned, text_bytes, Place};
use nyanpasu_jobs::time::{Span, Timestamp};
use nyanpasu_jobs::{
    Cancellation, Completion, Error, JobDefinition, JobError, JournalState, Limits, LogPolicy,
    Outcome, Output, Retention, RunCursor, RunId, RunLog, RunRecord, RunState, Schedule, Trigger,
};

#[test]
fn texts_compare_by_their_bytes() {
    assert_eq!(compare_text("a", "b"), Place::Before);
    assert_eq!(compare_text("b", "a"), Place::After);
    assert_eq!(compare_text("a", "a"), Place::Same);
    assert_eq!(compare_text("a", "ab"), Place::Before);
    assert_eq!(compare_text("", ""), Place::Same);
    assert_eq!(compare_text("z", "\u{e9}"), Place::Before);
    assert_eq!(text_bytes("\u{e9}a"), 3);
}

#[test]
fn texts_of_identifiers_sort_like_them() {
    let ids = [0, 9, 10, 0x0fff_ffff, 1 << 64, (10 << 124) - 1, 10 << 124, u128::MAX];
    for (i, a) in ids.iter().enumerate() {
        for (j, b) in ids.iter().enumerate() {
            let place = compare_text(&RunId { bits: *a }.text(), &RunId { bits: *b }.text());
            let expected = if i < j {
                Place::Before
            } else if i == j {
                Place::Same
            } else {
                Place::After
            };
            assert_eq!(place, expected);
        }
    }
    let query = runs_query(Some(RunCursor { sequence: 7, id: RunId { bits: 10 << 124 } }), 5);
    assert_eq!(query.after_sequence, 7);
    assert_eq!(query.after_id, "a0000000-0000-0000-0000-000000000000");
    assert_eq!(query.take, 6);
    assert_eq!(runs_query(None, 5).after_id, "");
}

#[test]
fn numbers_survive_their_decimal_text() {
    for value in [0, 1, 9, 10, 99, 100, 1_234_567_890, u64::MAX - 1, u64::MAX] {
        assert_eq!(decimal_text(value), format!("{value}"));
        assert_eq!(parse_unsigned(&decimal_text(value)), Some(value));
    }
    assert_eq!(parse_unsigned("+12"), Some(12));
    assert_eq!(parse_unsigned("0012"), Some(12));
    for text in ["", "+", "-1", "-0", " 1", "1 ", "1_0", "\u{661}", "18446744073709551616"] {
        assert_eq!(parse_unsigned(text), None);
    }
}

#[test]
fn maps_keep_their_keys_in_order() {
    let mut map: SortedMap<String, String> = SortedMap::new();
    for key in ["m", "c", "x", "a", "m"] {
        map.insert(key.to_string(), format!("<{key}>"));
    }
    let keys: Vec<&str> = map.items.iter().map(|item| item.0.as_str()).collect();
    assert_eq!(keys, vec!["a", "c", "m", "x"]);
    assert_eq!(map.get(&"c".to_string()), Some(&"<c>".to_string()));
    assert_eq!(map.get(&"d".to_string()), None);
    assert_eq!(map.remove(&"c".to_string()), Some("<c>".to_string()));
    assert_eq!(map.remove(&"c".to_string()), None);
    assert_eq!(map.len(), 3);
    assert!(map.contains(&"x".to_string()));
}

#[test]
fn errors_have_their_texts() {
    let id = RunId { bits: 10 };
    let shown = "00000000-0000-0000-0000-00000000000a";
    for (error, text) in [
        (Error::Invalid("x".to_string()), "invalid definition or input: x".to_string()),
        (Error::NotFound, "not found".to_string()),
        (Error::Busy, "job or global capacity busy".to_string()),
        (Error::ShuttingDown, "service is shutting down".to_string()),
        (Error::Journal("x".to_string()), "journal unavailable: x".to_string()),
        (Error::AlreadySubmitted(id), format!("run already submitted: {shown}")),
        (
            Error::AdmissionUnknown(id),
            format!("admission result unknown; query {shown}, do not resubmit"),
        ),
        (Error::AdmissionFailed("x".to_string()), "admission failed: x".to_string()),
        (Error::WaitTimedOut(id), format!("wait timed out for {shown}")),
        (Error::TimedOut, "control call timed out".to_string()),
        (Error::Stopped, "service stopped".to_string()),
        (Error::OutputUnavailable("x".to_string()), "output unavailable: x".to_string()),
        (Error::StaleRevision, "stale scope revision".to_string()),
    ] {
        assert_eq!(error.text(), text);
        assert_eq!(error.clone(), error);
    }
    assert_eq!(JobError::new("a", "b").text(), "a: b");
    assert_eq!(JobError::cancelled().text(), "cancelled: Work acknowledged cancellation");
}

#[test]
fn defaults_are_the_documented_limits() {
    let limits = Limits::default();
    assert_eq!(limits.concurrency, 8);
    assert_eq!(limits.input_bytes, 64 * 1024);
    assert_eq!(limits.output_bytes, 64 * 1024);
    assert_eq!(limits.control_timeout, Span::from_secs(10));
    assert_eq!(limits.finalization_timeout, Span::from_secs(10));
    assert_eq!(limits.wait_timeout, Span::from_secs(30));
    assert_eq!(limits.shutdown_timeout, Span::from_secs(30));
    assert_eq!(limits.lateness, Span::from_secs(5));
    assert_eq!(limits.retention, Retention::default());
    assert_eq!(limits.retention.age, Span::from_secs(7 * 86400));
    assert_eq!(limits.retention.per_job, 100);
    assert_eq!(limits.retention.runs, 10_000);
    assert_eq!(limits.retention.bytes, 256 * 1024 * 1024);
    let policy = LogPolicy::default();
    assert_eq!(policy.queue_entries, 1024);
    assert_eq!(policy.entry_bytes, 4096);
    assert_eq!(policy.run_entries, 4096);
    assert_eq!(policy.run_bytes, 1024 * 1024);
    assert_eq!(policy.level, Level::Info);
    assert!(policy.open(Level::Error, "anything").is_none());
    let definition = JobDefinition::manual("example/double");
    assert_eq!(definition.key, "example/double");
    assert_eq!(definition.name, "example/double");
    assert_eq!(definition.scope, "default");
    assert_eq!(definition.managed_by, "application");
    assert_eq!(definition.version, 1);
    assert_eq!(definition.schedule, Schedule::Manual);
    assert_eq!(definition.cancellation, Cancellation::default());
}

#[test]
fn outputs_decode_or_say_why_not() {
    let done = |output: Output| Completion {
        outcome: Outcome::Succeeded,
        output,
        journal: JournalState::Durable,
    };
    let parse = |text: &str| serde_json::from_str::<u32>(text).ok();
    assert_eq!(done(Output::Json("42".to_string())).decode(parse), Ok(42));
    assert_eq!(
        done(Output::Json("\"x\"".to_string())).decode(parse),
        Err(Error::OutputUnavailable("schema_mismatch".to_string()))
    );
    assert_eq!(
        done(Output::Unavailable("size_limit".to_string())).decode(parse),
        Err(Error::OutputUnavailable("size_limit".to_string()))
    );
    assert_eq!(
        done(Output::Nothing).decode(parse),
        Err(Error::OutputUnavailable("no_output".to_string()))
    );
}

#[test]
fn endings_become_completions() {
    assert_eq!(conclude(Ending::Failed(JobError::cancelled())).outcome, Outcome::Cancelled);
    assert_eq!(
        conclude(Ending::Panicked).outcome,
        Outcome::Failed(JobError::new("panicked", "Handler panicked"))
    );
    assert_eq!(
        conclude(input_invalid()).outcome,
        Outcome::Failed(JobError::new("input_invalid", "Input schema changed"))
    );
    assert_eq!(
        conclude(blocking_panicked()).outcome,
        Outcome::Failed(JobError::new("panicked", "Blocking handler panicked"))
    );
    let lost = conclude(Ending::Returned(Err(Error::NotFound)));
    assert_eq!(lost.outcome, Outcome::Succeeded);
    assert_eq!(lost.output, Output::Unavailable("encoding_failed".to_string()));
}

#[test]
fn captured_texts_stop_at_their_limit() {
    let mut out = Limited::new(4);
    assert!(out.write_str("ab"));
    assert!(!out.write_str("cde"));
    assert!(out.overflow);
    assert!(out.write_str("\u{e9}"));
    assert_eq!(out.text, "ab\u{e9}");
    assert_eq!(out.remaining, 0);
}

fn policy() -> LogPolicy {
    let mut names = SortedMap::new();
    names.insert("code".to_string(), Present);
    let mut targets = SortedMap::new();
    targets.insert("safe".to_string(), names);
    LogPolicy { targets, ..LogPolicy::default() }
}

fn note(policy: &LogPolicy, ingress: &mut Ingress, id: RunId, text: &str, bytes: usize) -> bool {
    let mut fields = policy.open(Level::Info, "safe").unwrap();
    let mut out = Limited::new(fields.max);
    out.write_str(text);
    fields.record("code", out);
    ingress.note(policy, id, fields, Timestamp { nanos: 0 }, |_: &RunLog| bytes)
}

#[test]
fn levels_and_targets_are_filtered() {
    let policy = policy();
    assert!(policy.open(Level::Debug, "safe").is_none());
    assert!(policy.open(Level::Trace, "safe").is_none());
    assert!(policy.open(Level::Warn, "safe").is_some());
    assert!(policy.open(Level::Error, "other").is_none());
    let fields = policy.open(Level::Info, "safe").unwrap();
    assert!(fields.allows("code"));
    assert!(!fields.allows("message"));
    assert_eq!(Level::Warn.name(), "WARN");
    assert_eq!(Level::Trace.name(), "TRACE");
}

#[test]
fn entries_are_dropped_for_every_limit_and_counted() {
    let id = RunId { bits: 7 };
    let small = LogPolicy { entry_bytes: 50, run_bytes: 100, run_entries: 3, ..policy() };
    let mut ingress = Ingress::new();
    assert!(!note(&small, &mut ingress, id, "x", 10));
    assert!(!ingress.knows(id));
    ingress.register(&small, id);
    assert!(ingress.knows(id));
    assert!(note(&small, &mut ingress, id, "x", 51));
    assert!(note(&small, &mut ingress, id, &"x".repeat(51), 10));
    assert!(note(&small, &mut ingress, id, "x", 50));
    assert!(note(&small, &mut ingress, id, "y", 50));
    assert!(note(&small, &mut ingress, id, "z", 1));
    assert_eq!(ingress.budget, 2);
    let batch = ingress.drain(&small, id);
    assert_eq!(batch.iter().map(|log| log.sequence).collect::<Vec<_>>(), vec![3, 4]);
    assert_eq!(batch[0].level, "INFO");
    assert_eq!(batch[0].target, "safe");
    assert_eq!(ingress.budget, 0);
    assert!(note(&small, &mut ingress, id, "n", 0));
    let (rest, sequence, dropped) = ingress.seal(&small, id);
    assert_eq!(rest.len(), 1);
    assert_eq!((sequence, dropped), (6, 3));
    assert!(!note(&small, &mut ingress, id, "late", 0));
    ingress.remove(&small, id);
    assert_eq!(ingress.seal(&small, id).0.len(), 0);
    assert!(ingress.drain(&small, id).is_empty());
}

#[test]
fn runs_share_one_budget_and_drain_in_batches() {
    let wide = policy();
    let (a, b) = (RunId { bits: 1 }, RunId { bits: 2 });
    let mut ingress = Ingress::new();
    ingress.register(&wide, a);
    ingress.register(&wide, b);
    for _ in 0..1000 {
        note(&wide, &mut ingress, a, "x", 1);
    }
    for _ in 0..30 {
        note(&wide, &mut ingress, b, "x", 1);
    }
    assert_eq!(ingress.budget, 1024);
    assert_eq!(ingress.drain(&wide, a).len(), 128);
    assert_eq!(ingress.budget, 896);
    assert_eq!(ingress.seal(&wide, b).2, 6);
    ingress.remove(&wide, a);
    assert_eq!(ingress.budget, 0);
    let fields = wide.open(Level::Info, "safe").unwrap();
    assert!(ingress.note_now(&wide, b, fields, |_: &RunLog| 1) == false);
    ingress.register(&wide, b);
    let fields = wide.open(Level::Info, "safe").unwrap();
    assert!(ingress.note_now(&wide, b, fields, |_: &RunLog| 1));
    assert!(ingress.drain(&wide, b)[0].time.nanos > 1_600_000_000_000_000_000);
}

#[test]
fn drains_and_the_seal_take_every_kept_entry_in_order() {
    let small = LogPolicy { run_entries: 300, ..policy() };
    let id = RunId { bits: 5 };
    let mut ingress = Ingress::new();
    ingress.register(&small, id);
    let mut taken = Vec::new();
    for n in 0..350 {
        note(&small, &mut ingress, id, "x", if n % 10 == 0 { 5000 } else { 1 });
        if n == 40 || n == 200 {
            taken.extend(ingress.drain(&small, id));
        }
    }
    let (tail, sequence, dropped) = ingress.seal(&small, id);
    taken.extend(tail);
    assert_eq!(taken.len(), 300);
    assert!(taken.windows(2).all(|pair| pair[0].sequence < pair[1].sequence));
    assert!(taken.iter().all(|log| log.sequence % 10 != 1));
    assert_eq!((sequence, dropped), (350, 50));
}

fn admitted_run() -> Run {
    let record = RunRecord {
        id: RunId { bits: 1 },
        job: "job".to_string(),
        definition_version: 1,
        trigger: Trigger::Manual,
        scheduled_at: None,
        admitted_at: Timestamp { nanos: 0 },
        admission_sequence: 0,
        finished_at: None,
        state: RunState::Admitted,
        last_log_sequence: 0,
        dropped_log_count: 0,
    };
    let (run, _) = Run::new(record.clone(), false).step(Event::Begun { reply: false });
    assert!(!run.wants_logs());
    let (run, _) = run.step(Event::Admitted(Ok(record)));
    run.step(Event::Decided(true)).0
}

fn entries(sequences: &[u64]) -> Vec<RunLog> {
    sequences
        .iter()
        .map(|sequence| RunLog {
            run_id: RunId { bits: 1 },
            sequence: *sequence,
            time: Timestamp { nanos: 0 },
            level: "INFO".to_string(),
            target: "safe".to_string(),
            fields: SortedMap::new(),
        })
        .collect()
}

fn numbers(logs: &[RunLog]) -> Vec<u64> {
    logs.iter().map(|log| log.sequence).collect()
}

/// Ends a run and gives the logs that go with its result, if it writes the result at once.
fn ended(run: Run, tail: &[u64]) -> (Run, Option<Vec<u64>>) {
    let (run, _) = run.step(Event::Returned(Completion {
        outcome: Outcome::Succeeded,
        output: Output::Nothing,
        journal: JournalState::Durable,
    }));
    let (run, _) = run.step(Event::TaskEnded(true));
    let (run, _) = run.step(Event::Drained);
    sealed(run, tail)
}

fn sealed(run: Run, tail: &[u64]) -> (Run, Option<Vec<u64>>) {
    let at = Timestamp { nanos: 1 };
    let event = Event::Sealed { tail: entries(tail), sequence: 9, dropped: 0, at };
    let (run, actions) = run.step(event);
    let written = written_with_result(&actions);
    (run, written)
}

fn written_with_result(actions: &[Action]) -> Option<Vec<u64>> {
    actions.iter().find_map(|action| match action {
        Action::Finish(_, logs) => Some(numbers(logs)),
        _ => None,
    })
}

#[test]
fn logs_that_come_while_a_batch_is_written_are_not_forgotten() {
    let run = admitted_run();
    assert!(run.wants_logs());
    let (run, actions) = run.step(Event::LogTimer(entries(&[1, 2])));
    assert!(matches!(&actions[0], Action::Append(logs) if numbers(logs) == vec![1, 2]));
    assert!(!run.wants_logs());
    let (run, actions) = run.step(Event::LogTimer(entries(&[3])));
    assert!(actions.is_empty());
    let (run, _) = run.step(Event::Appended(true));
    assert!(run.wants_logs());
    assert_eq!(numbers(&run.pending), vec![3]);
    let (again, actions) = run.step(Event::LogTimer(entries(&[4])));
    assert!(matches!(&actions[0], Action::Append(logs) if numbers(logs) == vec![3, 4]));
    let (again, _) = again.step(Event::Appended(true));
    assert_eq!(ended(again, &[5]).1, Some(vec![5]));
}

#[test]
fn batches_that_fail_or_stay_open_go_with_the_result() {
    let (run, _) = admitted_run().step(Event::LogTimer(entries(&[1])));
    let (run, _) = run.step(Event::LogTimer(entries(&[2])));
    let (failed, actions) = run.step(Event::Appended(false));
    assert!(matches!(actions[0], Action::Fault));
    assert!(!failed.wants_logs());
    assert_eq!(ended(failed, &[3]).1, Some(vec![1, 2, 3]));

    let (run, _) = admitted_run().step(Event::LogTimer(entries(&[1])));
    let (open, written) = ended(run, &[2]);
    assert_eq!(written, None);
    let (_, actions) = open.step(Event::Appended(true));
    assert_eq!(written_with_result(&actions), Some(vec![1, 2]));
}

#[test]
fn batches_that_end_while_children_are_waited_for_are_not_waited_for_again() {
    for drained in [false, true] {
        let (run, _) = admitted_run().step(Event::LogTimer(entries(&[1])));
        let (mut run, _) = run.step(Event::TaskEnded(false));
        if drained {
            run = run.step(Event::Drained).0;
        }
        let (mut run, actions) = run.step(Event::Appended(true));
        assert!(actions.is_empty());
        if !drained {
            run = run.step(Event::Drained).0;
        }
        assert_eq!(sealed(run, &[2]).1, Some(vec![1, 2]));
    }
}

#[test]
fn spans_name_their_run_in_quotes_or_not() {
    let id = RunId { bits: 0x67e5_5044_10b1_426f_9247_bb68_0e5f_e0c8 };
    let mut visitor = RunVisitor::new();
    visitor.see_debug("other", &id.text());
    assert_eq!(visitor.found, None);
    visitor.see_debug("job_run_id", &format!("\"{}\"", id.text()));
    assert_eq!(visitor.found, Some(id));
    for text in ["", "\"", "\"\"\"", "\"\u{e9}\""] {
        visitor.see_debug("job_run_id", text);
        assert_eq!(visitor.found, None);
    }
    visitor.see_debug("job_run_id", &format!("\"\"{}\"", id.text()));
    assert_eq!(visitor.found, Some(id));
    visitor.see_str("job_run_id", "nonsense");
    assert_eq!(visitor.found, None);
    visitor.see_str("job_run_id", &id.text());
    assert_eq!(visitor.found, Some(id));
    visitor.see_debug("job_run_id", &id.text());
    assert_eq!(visitor.found, Some(id));
}
