use nyanpasu_jobs::dto::{
    CompletionDto, JournalDto, LogDto, LogPageDto, OutcomeDto, OutputDto, RunCursorDto, RunDto,
    RunPageDto, RunStateDto,
};
use nyanpasu_jobs::sorted::SortedMap;
use nyanpasu_jobs::time::Timestamp;
use nyanpasu_jobs::{
    Completion, Error, JobError, JournalState, Outcome, Output, Page, RunCursor, RunId, RunLog,
    RunRecord, RunState, Trigger,
};

fn record(state: RunState) -> RunRecord {
    RunRecord {
        id: RunId { bits: 0x67e5_5044_10b1_426f_9247_bb68_0e5f_e0c8 },
        job: "job".to_string(),
        definition_version: 7,
        trigger: Trigger::StartupCatchUp,
        scheduled_at: Some(Timestamp { nanos: 1_000_000_000 }),
        admitted_at: Timestamp { nanos: 1_757_203_200_000_000_000 },
        admission_sequence: u64::MAX,
        finished_at: None,
        state,
        last_log_sequence: 3,
        dropped_log_count: 0,
    }
}

#[test]
fn wire_cursor_preserves_large_integer_and_rejects_invalid_ids() {
    let cursor = RunCursor { sequence: u64::MAX, id: RunId::new_v4() };
    let dto = RunCursorDto::from(cursor);
    let json = serde_json::to_string(&(&dto.sequence, &dto.id)).unwrap();
    assert!(json.contains("\"18446744073709551615\""));
    let (sequence, id) = serde_json::from_str::<(String, String)>(&json).unwrap();
    assert_eq!(RunCursor::try_from(RunCursorDto { sequence, id }).unwrap(), cursor);
    assert!(RunCursor::try_from(RunCursorDto {
        sequence: "-1".to_string(),
        id: cursor.id.text(),
    })
    .is_err());
}

#[test]
fn wire_cursor_names_the_part_that_is_wrong() {
    let bad_sequence = RunCursorDto { sequence: "".to_string(), id: "nonsense".to_string() };
    assert_eq!(
        RunCursor::try_from(bad_sequence).unwrap_err(),
        Error::Invalid("invalid cursor sequence".to_string())
    );
    let too_large = RunCursorDto {
        sequence: "18446744073709551616".to_string(),
        id: RunId { bits: 1 }.text(),
    };
    assert_eq!(
        RunCursor::try_from(too_large).unwrap_err(),
        Error::Invalid("invalid cursor sequence".to_string())
    );
    let bad_id = RunCursorDto { sequence: "+7".to_string(), id: "nonsense".to_string() };
    assert_eq!(
        RunCursor::try_from(bad_id).unwrap_err(),
        Error::Invalid("invalid cursor ID".to_string())
    );
}

#[test]
fn identifiers_have_one_text_and_several_spellings() {
    let id = RunId { bits: 0x67e5_5044_10b1_426f_9247_bb68_0e5f_e0c8 };
    assert_eq!(id.text(), "67e55044-10b1-426f-9247-bb680e5fe0c8");
    for spelling in [
        "67e55044-10b1-426f-9247-bb680e5fe0c8",
        "67E55044-10B1-426F-9247-BB680E5FE0C8",
        "67e5504410b1426f9247bb680e5fe0c8",
        "{67e55044-10b1-426f-9247-bb680e5fe0c8}",
        "urn:uuid:67e55044-10b1-426f-9247-bb680e5fe0c8",
        "URN:UUID:67e55044-10b1-426f-9247-bb680e5fe0c8",
    ] {
        assert_eq!(RunId::parse(spelling), Some(id));
    }
    for other in ["", "67e55044", "67e55044-10b1-426f-9247-bb680e5fe0cg", "{67e5504410b1426f9247bb680e5fe0c8}"] {
        assert_eq!(RunId::parse(other), None);
    }
    let drawn = RunId::new_v4();
    assert_eq!((drawn.bits >> 76) & 0xf, 4);
    assert_eq!((drawn.bits >> 62) & 3, 2);
    assert_eq!(RunId::parse(&drawn.text()), Some(drawn));
}

#[test]
fn run_record_has_a_finite_wire_shape() {
    let dto = RunDto::from_record(record(RunState::Finished(Completion {
        outcome: Outcome::Failed(JobError::new("code", "text")),
        output: Output::Nothing,
        journal: JournalState::Degraded("commit_failed".to_string()),
    })));
    assert_eq!(dto.id, "67e55044-10b1-426f-9247-bb680e5fe0c8");
    assert_eq!(dto.job, "job");
    assert_eq!(dto.definition_version, "7");
    assert_eq!(dto.admission_sequence, "18446744073709551615");
    assert_eq!(dto.trigger, "startup_catch_up");
    assert_eq!(dto.scheduled_at.as_deref(), Some("1970-01-01T00:00:01+00:00"));
    assert_eq!(dto.admitted_at, "2025-09-07T00:00:00+00:00");
    assert!(dto.finished_at.is_none());
    assert_eq!(dto.last_log_sequence, "3");
    assert_eq!(dto.dropped_log_count, "0");
    match dto.state {
        RunStateDto::Finished { completion: CompletionDto { outcome, output, journal } } => {
            assert!(matches!(outcome, OutcomeDto::Failed { code, message } if code == "code" && message == "text"));
            assert!(matches!(output, OutputDto::Nothing));
            assert!(matches!(journal, JournalDto::Degraded { code } if code == "commit_failed"));
        }
        _ => panic!("not finished"),
    }
    for (trigger, name) in [
        (Trigger::Manual, "manual"),
        (Trigger::Once, "once"),
        (Trigger::Interval, "interval"),
        (Trigger::Cron, "cron"),
    ] {
        let mut run = record(RunState::Admitted);
        run.trigger = trigger;
        assert_eq!(RunDto::from_record(run).trigger, name);
    }
    assert!(matches!(RunDto::from_record(record(RunState::Admitted)).state, RunStateDto::Admitted));
    assert!(matches!(RunDto::from_record(record(RunState::Running)).state, RunStateDto::Running));
    assert!(matches!(RunDto::from_record(record(RunState::Cancelling)).state, RunStateDto::Cancelling));
    assert!(matches!(RunDto::from_record(record(RunState::Finalizing)).state, RunStateDto::Finalizing));
}

#[test]
fn completions_have_a_finite_wire_shape() {
    let json = CompletionDto::from(Completion {
        outcome: Outcome::Succeeded,
        output: Output::Json("[1]".to_string()),
        journal: JournalState::Durable,
    });
    assert!(matches!(json.outcome, OutcomeDto::Succeeded));
    assert!(matches!(json.output, OutputDto::JsonText { value } if value == "[1]"));
    assert!(matches!(json.journal, JournalDto::Durable));
    let lost = CompletionDto::from(Completion {
        outcome: Outcome::Interrupted,
        output: Output::Unavailable("size_limit".to_string()),
        journal: JournalState::Durable,
    });
    assert!(matches!(lost.outcome, OutcomeDto::Interrupted));
    assert!(matches!(lost.output, OutputDto::Unavailable { code } if code == "size_limit"));
    assert!(matches!(CompletionDto::from(Completion::bare(Outcome::Cancelled)).outcome, OutcomeDto::Cancelled));
    assert!(matches!(CompletionDto::from(Completion::bare(Outcome::Skipped)).outcome, OutcomeDto::Skipped));
}

#[test]
fn pages_keep_items_and_cursors() {
    let run = record(RunState::Admitted);
    let cursor = RunCursor { sequence: 9, id: run.id };
    let page = RunPageDto::from_page(Page { items: vec![run.clone(), run], next: Some(cursor) });
    assert_eq!(page.items.len(), 2);
    let next = page.next.unwrap();
    assert_eq!(next.sequence, "9");
    assert_eq!(RunCursor::try_from(next).unwrap(), cursor);
    let mut fields: SortedMap<String, String> = SortedMap::new();
    fields.insert("code".to_string(), "start".to_string());
    let log = RunLog {
        run_id: RunId { bits: 1 },
        sequence: 4,
        time: Timestamp { nanos: 1_500_000_000 },
        level: "INFO".to_string(),
        target: "safe".to_string(),
        fields,
    };
    let page = LogPageDto::from_page(Page { items: vec![log], next: Some(4) });
    assert_eq!(page.next.as_deref(), Some("4"));
    let LogDto { run_id, sequence, time, level, target, fields } = page.items.into_iter().next().unwrap();
    assert_eq!(run_id, "00000000-0000-0000-0000-000000000001");
    assert_eq!(sequence, "4");
    assert_eq!(time, "1970-01-01T00:00:01.500+00:00");
    assert_eq!(level, "INFO");
    assert_eq!(target, "safe");
    assert_eq!(fields.items, vec![("code".to_string(), "start".to_string())]);
}
