use chrono::{DateTime, TimeZone, Utc};
use chrono_tz::America::New_York;
use nyanpasu_jobs::job::Decoding;
use nyanpasu_jobs::schedule::{advance, initial_due, read_occurrence, Occurrence, Timing};
use nyanpasu_jobs::time::{to_rfc3339, Moment, Reading, Span, Timestamp};
use nyanpasu_jobs::{Clock, Error, Job, JobDefinition, Schedule, SystemClock};

fn instant(at: DateTime<Utc>) -> Timestamp {
    Timestamp::joined(at.timestamp(), at.timestamp_subsec_nanos())
}

fn cron(expression: &str, timezone: &str) -> Schedule {
    Schedule::Cron { expression: expression.to_string(), timezone: timezone.to_string() }
}

fn invalid(reason: &str) -> Error {
    Error::Invalid(reason.to_string())
}

#[test]
fn cron_timezone_validation_and_dst_are_explicit() {
    let schedule = cron("30 2 * * *", "America/New_York");
    let before = New_York.with_ymd_and_hms(2026, 3, 8, 1, 59, 59).unwrap().with_timezone(&Utc);
    assert_eq!(
        schedule.next_cron(instant(before)).unwrap(),
        instant(New_York.with_ymd_and_hms(2026, 3, 8, 3, 0, 0).unwrap().with_timezone(&Utc))
    );
    let fall = cron("30 1 * * *", "America/New_York");
    let before = New_York.with_ymd_and_hms(2026, 11, 1, 0, 0, 0).unwrap().with_timezone(&Utc);
    let first = fall.next_cron(instant(before)).unwrap();
    assert_eq!(
        first,
        instant(
            New_York
                .with_ymd_and_hms(2026, 11, 1, 1, 30, 0)
                .earliest()
                .unwrap()
                .with_timezone(&Utc)
        )
    );
    assert_eq!(
        fall.next_cron(first).unwrap(),
        instant(New_York.with_ymd_and_hms(2026, 11, 2, 1, 30, 0).unwrap().with_timezone(&Utc))
    );
    for (expression, timezone) in [
        ("0 0 30 2 *", "UTC"),
        ("0 0 0 * * * 2026", "UTC"),
        ("* * * * *", "Invalid/Zone"),
        ("*/0 * * * *", "UTC"),
    ] {
        assert!(cron(expression, timezone).validate(SystemClock.now()).is_err());
    }
}

#[test]
fn schedules_say_why_they_are_refused() {
    let now = SystemClock.now();
    assert_eq!(Schedule::Manual.validate(now), Ok(()));
    assert_eq!(Schedule::default(), Schedule::Manual);
    assert_eq!(Schedule::Interval { every_ms: 0 }.validate(now), Err(invalid("zero interval")));
    assert_eq!(Schedule::Once { delay_ms: 0 }.validate(now), Ok(()));
    let ten_years = 10 * 365 * 86400 * 1000;
    assert_eq!(Schedule::Once { delay_ms: ten_years }.validate(now), Ok(()));
    assert_eq!(
        Schedule::Once { delay_ms: ten_years + 1 }.validate(now),
        Err(invalid("delay exceeds ten years"))
    );
    assert_eq!(
        Schedule::Interval { every_ms: ten_years + 1 }.validate(now),
        Err(invalid("delay exceeds ten years"))
    );
    assert_eq!(cron("* * * * *", "Nowhere").validate(now), Err(invalid("unknown IANA timezone")));
    assert_eq!(Schedule::Manual.next_cron(now), Err(invalid("not cron")));
    assert_eq!(cron("* * * * *", "Europe/Paris").validate(now), Ok(()));
    assert_eq!(read_occurrence(Occurrence::UnknownZone), Err(invalid("unknown IANA timezone")));
    assert_eq!(
        read_occurrence(Occurrence::BadExpression("x".to_string())),
        Err(invalid("x"))
    );
    assert_eq!(read_occurrence(Occurrence::Never("y".to_string())), Err(invalid("y")));
    assert_eq!(read_occurrence(Occurrence::At(now)), Ok(now));
}

#[test]
fn next_instants_are_exclusive_and_in_seconds() {
    let schedule = cron("*/10 * * * * *", "UTC");
    let start = instant(Utc.with_ymd_and_hms(2026, 1, 1, 0, 0, 0).unwrap());
    let next = schedule.next_cron(start).unwrap();
    assert_eq!(next.nanos - start.nanos, 10_000_000_000);
    assert_eq!(schedule.next_cron(next).unwrap().nanos - next.nanos, 10_000_000_000);
}

#[test]
fn interval_deadlines_keep_their_anchor() {
    let schedule = Schedule::Interval { every_ms: 10_000 };
    let start = Reading {
        wall: instant(Utc.with_ymd_and_hms(2026, 1, 1, 0, 0, 0).unwrap()),
        mono: Moment { nanos: 500 },
    };
    assert!(start.is_usable());
    let first = initial_due(&schedule, start);
    assert_eq!(first.deadline, Some(Moment { nanos: 10_000_000_500 }));
    assert_eq!(first.next, Some(Timestamp { nanos: start.wall.nanos + 10_000_000_000 }));
    assert!(!first.due(start));
    let late = Reading {
        wall: Timestamp { nanos: start.wall.nanos + 47_000_000_000 },
        mono: Moment { nanos: 47_000_000_500 },
    };
    assert!(first.due(late));
    assert_eq!(first.late(late), Span::from_secs(37));
    let (next, error) = advance(&schedule, &first, late);
    assert!(error.is_none());
    assert_eq!(next.deadline, Some(Moment { nanos: 50_000_000_500 }));
    assert_eq!(next.next, Some(Timestamp { nanos: start.wall.nanos + 50_000_000_000 }));
    let (used, _) = advance(&Schedule::Once { delay_ms: 10_000 }, &first, late);
    assert_eq!(used, Timing { deadline: None, next: None });
    assert_eq!(initial_due(&Schedule::Manual, start), Timing { deadline: None, next: None });
}

#[test]
fn patterns_continue_after_the_later_of_now_and_the_instant_used() {
    let schedule = cron("* * * * *", "UTC");
    let slot = instant(Utc.with_ymd_and_hms(2026, 1, 1, 0, 1, 0).unwrap());
    let timing = Timing { deadline: None, next: Some(slot) };
    let now = Reading { wall: slot, mono: Moment { nanos: 0 } };
    assert!(timing.due(now));
    let (next, _) = advance(&schedule, &timing, now);
    assert_eq!(next.next, Some(Timestamp { nanos: slot.nanos + 60_000_000_000 }));
}

#[test]
fn default_inputs_are_bounded() {
    let make = |input: Result<String, Error>| Job::new(JobDefinition::manual("key"), input);
    assert_eq!(make(Ok("x".repeat(65_536))).unwrap().input.len(), 65_536);
    assert_eq!(
        make(Ok("x".repeat(65_537))).unwrap_err(),
        invalid("output unavailable: size_limit")
    );
    assert_eq!(
        make(Ok("\u{e9}".repeat(32_769))).unwrap_err(),
        invalid("output unavailable: size_limit")
    );
    assert_eq!(
        make(Err(Error::OutputUnavailable("encoding_failed".to_string()))).unwrap_err(),
        invalid("output unavailable: encoding_failed")
    );
}

#[test]
fn definitions_say_why_they_are_refused() {
    let now = SystemClock.now();
    let make = |key: &str| Job::new(JobDefinition::manual(key), Ok("null".to_string())).unwrap();
    let check = |job: &Job| job.validate_definition(4, &Decoding::Accepted, now);
    assert_eq!(check(&make("key")), Ok(()));
    assert_eq!(check(&make("")), Err(invalid("invalid job identity/metadata")));
    assert_eq!(check(&make(&"k".repeat(513))), Err(invalid("invalid job identity/metadata")));
    assert_eq!(check(&make(&"k".repeat(512))), Ok(()));
    let mut wide = make("key");
    wide.definition.scope = "\u{e9}".repeat(65);
    assert_eq!(check(&wide), Err(invalid("invalid job identity/metadata")));
    let mut long = make("key");
    long.input = "false".to_string();
    assert_eq!(check(&long), Err(invalid("input limit")));
    assert!(make("key").asks_decoder(4));
    assert!(!make("").asks_decoder(4) && !wide.asks_decoder(4) && !long.asks_decoder(4));
    let refused = Decoding::Refused("no".to_string());
    assert_eq!(make("key").validate_definition(4, &refused, now), Err(invalid("no")));
    assert_eq!(
        make("key").validate_definition(4, &Decoding::Panicked, now),
        Err(invalid("input decoder panicked"))
    );
    let mut never = make("key");
    never.definition.schedule = Schedule::Interval { every_ms: 0 };
    assert_eq!(check(&never), Err(invalid("zero interval")));
    let failed = Job::new(
        JobDefinition::manual("key"),
        Err(Error::OutputUnavailable("size_limit".to_string())),
    );
    assert_eq!(failed.unwrap_err(), invalid("output unavailable: size_limit"));
    assert!(make("key").same(&make("key")));
    let mut newer = make("key");
    newer.definition.version = 2;
    assert!(!make("key").same(&newer));
}

#[test]
fn instants_are_written_in_utc() {
    let at = |nanos: i128| to_rfc3339(Timestamp { nanos });
    assert_eq!(at(0), "1970-01-01T00:00:00+00:00");
    assert_eq!(at(-1), "1969-12-31T23:59:59.999999999+00:00");
    assert_eq!(at(1_788_739_200_000_000_000), "2026-09-07T00:00:00+00:00");
    assert_eq!(Timestamp { nanos: -1 }.split(), (-1, 999_999_999));
    assert_eq!(Timestamp::joined(-1, 999_999_999), Timestamp { nanos: -1 });
    let end = Timestamp { nanos: 8_210_266_876_799_999_999_999 };
    assert!(end.is_representable());
    assert!(!end.is_schedulable());
    assert_eq!(to_rfc3339(end), "+262142-12-31T23:59:59.999999999+00:00");
    let first = Timestamp { nanos: -8_334_601_228_800_000_000_000 };
    assert!(first.is_representable());
    assert_eq!(to_rfc3339(first), "-262143-01-01T00:00:00+00:00");
    assert!(!Timestamp { nanos: i128::MAX }.is_representable());
}
