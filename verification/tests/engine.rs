use calsync::dates::Date;
use calsync::errors::{PerEventError, RunError};
use calsync::events::{EventTime, RawEvent, SourceEvent};
use calsync::fields::Fields;
use calsync::reconcile::{reconcile, Outcome, Window};
use calsync::records::Record;
use calsync::translate::{convert_range, SyncEngine};
use calsync::values::{DateStamp, DateValue, Value};

fn d(year: u32, month: u32, day: u32) -> Date {
    Date { year, month, day }
}

fn day(year: u32, month: u32, dom: u32) -> EventTime {
    EventTime::Day(d(year, month, dom))
}

fn engine() -> SyncEngine {
    SyncEngine {
        title_property: "Name".to_string(),
        id_property: "UID".to_string(),
        date_property: "Date".to_string(),
        location_property: Some("Location".to_string()),
    }
}

fn raw(uid: &str, title: &str, start: EventTime, end: EventTime) -> RawEvent {
    RawEvent {
        uid: Some(uid.to_string()),
        summary: Some(title.to_string()),
        start: Some(start),
        end: Some(end),
        location: None,
    }
}

fn title_of(text: &str) -> Value {
    Value::Title { runs: vec![text.to_string()] }
}

fn text_of(text: &str) -> Value {
    Value::Text { runs: vec![text.to_string()] }
}

fn date_of(start: Date, end: Option<Date>) -> Value {
    Value::Date {
        range: Some(DateValue { start: DateStamp::Day(start), end: end.map(DateStamp::Day) }),
    }
}

fn record(rid: &str, entries: Vec<(&str, Value)>) -> Record {
    let mut fields = Fields::new();
    for (name, value) in entries {
        fields.insert(name.to_string(), value);
    }
    Record { record_id: rid.to_string(), fields }
}

#[test]
fn all_day_range_converts_to_inclusive_end() {
    let r = convert_range(day(2024, 1, 1), day(2024, 1, 3)).unwrap();
    assert_eq!(r.start, DateStamp::Day(d(2024, 1, 1)));
    assert_eq!(r.end, Some(DateStamp::Day(d(2024, 1, 2))));
}

#[test]
fn single_day_range_omits_end() {
    let r = convert_range(day(2024, 1, 1), day(2024, 1, 2)).unwrap();
    assert_eq!(r.start, DateStamp::Day(d(2024, 1, 1)));
    assert_eq!(r.end, None);
}

#[test]
fn underflowing_range_is_invalid() {
    assert_eq!(
        convert_range(day(1, 1, 1), day(1, 1, 1)),
        Err(PerEventError::InvalidDateRange)
    );
}

#[test]
fn mixed_bounds_are_invalid() {
    let timed = EventTime::Timed(calsync::dates::ZonedTime {
        date: d(2024, 1, 1),
        second: 0,
        offset_minutes: 0,
    });
    assert_eq!(
        convert_range(day(2024, 1, 1), timed),
        Err(PerEventError::InvalidDateRange)
    );
}

#[test]
fn timed_range_always_keeps_end() {
    let s = EventTime::Timed(calsync::dates::ZonedTime {
        date: d(2024, 1, 1),
        second: 3600,
        offset_minutes: 0,
    });
    let e = EventTime::Timed(calsync::dates::ZonedTime {
        date: d(2024, 1, 1),
        second: 7200,
        offset_minutes: 0,
    });
    let r = convert_range(s, e).unwrap();
    assert!(r.end.is_some());
}

#[test]
fn empty_title_does_not_clobber_stored_title() {
    let eng = engine();
    let event = SourceEvent {
        id: "ev1".to_string(),
        title: "".to_string(),
        start: day(2024, 1, 1),
        end: day(2024, 1, 3),
        location: None,
    };
    // Stored date disagrees, so an update is due — but the patch must not
    // carry the title property.
    let rec = record(
        "r1",
        vec![
            ("Name", title_of("Standup")),
            ("UID", text_of("ev1")),
            ("Date", date_of(d(2024, 3, 1), None)),
        ],
    );
    let upd = eng.update_request(&event, &rec).unwrap().unwrap();
    assert!(upd.patch.get(&"Name".to_string()).is_none());
    assert!(upd.patch.get(&"Date".to_string()).is_some());
}

#[test]
fn matching_record_is_a_no_op() {
    let eng = engine();
    let event = SourceEvent {
        id: "ev1".to_string(),
        title: "Meeting".to_string(),
        start: day(2024, 1, 1),
        end: day(2024, 1, 3),
        location: None,
    };
    let rec = record(
        "r1",
        vec![
            ("Name", title_of("Meeting")),
            ("UID", text_of("ev1")),
            ("Date", date_of(d(2024, 1, 1), Some(d(2024, 1, 2)))),
        ],
    );
    assert!(eng.update_request(&event, &rec).unwrap().is_none());
}

#[test]
fn stored_rich_text_compares_by_concatenation() {
    let eng = engine();
    let event = SourceEvent {
        id: "ev1".to_string(),
        title: "Standup".to_string(),
        start: day(2024, 1, 1),
        end: day(2024, 1, 3),
        location: None,
    };
    let rec = record(
        "r1",
        vec![
            ("Name", Value::Title { runs: vec!["Stand".to_string(), "up".to_string()] }),
            ("UID", text_of("ev1")),
            ("Date", date_of(d(2024, 1, 1), Some(d(2024, 1, 2)))),
        ],
    );
    assert!(eng.update_request(&event, &rec).unwrap().is_none());
}

#[test]
fn kind_mismatch_fails_that_record() {
    let eng = engine();
    let event = SourceEvent {
        id: "ev1".to_string(),
        title: "Meeting".to_string(),
        start: day(2024, 1, 1),
        end: day(2024, 1, 3),
        location: None,
    };
    let rec = record(
        "r1",
        vec![
            ("UID", text_of("ev1")),
            ("Date", Value::Number { num: 7 }),
        ],
    );
    assert_eq!(
        eng.update_request(&event, &rec).map(|_| ()),
        Err(PerEventError::UnsupportedPropertyType)
    );
}

#[test]
fn location_written_only_when_present_and_configured() {
    let eng = engine();
    let mut event = SourceEvent {
        id: "ev1".to_string(),
        title: "Meeting".to_string(),
        start: day(2024, 1, 1),
        end: day(2024, 1, 3),
        location: Some("Room 5".to_string()),
    };
    let fields = eng.create_request(&event).unwrap().fields;
    assert!(matches!(
        fields.get(&"Location".to_string()),
        Some(Value::Text { .. })
    ));

    event.location = Some("".to_string());
    let fields = eng.create_request(&event).unwrap().fields;
    assert!(fields.get(&"Location".to_string()).is_none());

    let mut unconfigured = engine();
    unconfigured.location_property = None;
    event.location = Some("Room 5".to_string());
    let fields = unconfigured.create_request(&event).unwrap().fields;
    assert!(fields.get(&"Location".to_string()).is_none());
}

#[test]
fn duplicate_destination_identifiers_abort_the_run() {
    let eng = engine();
    let records = vec![
        record("r1", vec![("UID", text_of("a"))]),
        record("r2", vec![("UID", text_of("a"))]),
    ];
    let r = reconcile(&eng, &vec![], &records, d(2024, 1, 1), None);
    assert!(matches!(r, Err(RunError::DuplicateIdentifier)));
}

#[test]
fn every_identifier_gets_exactly_one_outcome() {
    let eng = engine();
    let events = vec![
        raw("a", "A", day(2024, 1, 1), day(2024, 1, 2)),
        raw("b", "B", day(2024, 1, 1), day(2024, 1, 2)),
    ];
    let records = vec![
        record("r1", vec![("UID", text_of("b"))]),
        record("r2", vec![("UID", text_of("c"))]),
    ];
    let out = reconcile(&eng, &events, &records, d(2024, 1, 1), None).unwrap();
    let ids: Vec<&str> = out.outcomes.iter().map(|(id, _)| id.as_str()).collect();
    assert_eq!(ids, vec!["a", "b", "c"]);
    assert_eq!(out.outcomes[0].1, Outcome::Created);
    assert_eq!(out.outcomes[1].1, Outcome::Updated);
    assert_eq!(out.outcomes[2].1, Outcome::Orphaned);
    assert_eq!(out.creates.len(), 1);
    assert_eq!(out.updates.len(), 1);
}

#[test]
fn later_duplicate_source_event_wins() {
    let eng = engine();
    let events = vec![
        raw("a", "first", day(2024, 1, 1), day(2024, 1, 2)),
        raw("a", "second", day(2024, 1, 1), day(2024, 1, 2)),
    ];
    let out = reconcile(&eng, &events, &vec![], d(2024, 1, 1), None).unwrap();
    assert_eq!(out.creates.len(), 1);
    match out.creates[0].fields.get(&"Name".to_string()) {
        Some(Value::Title { runs }) => assert_eq!(runs, &vec!["second".to_string()]),
        other => panic!("unexpected title value: {:?}", other),
    }
}

#[test]
fn events_without_identifier_or_dates_are_rejected() {
    let eng = engine();
    let events = vec![
        RawEvent {
            uid: None,
            summary: Some("no uid".to_string()),
            start: Some(day(2024, 1, 1)),
            end: Some(day(2024, 1, 2)),
            location: None,
        },
        RawEvent {
            uid: Some("".to_string()),
            summary: None,
            start: Some(day(2024, 1, 1)),
            end: Some(day(2024, 1, 2)),
            location: None,
        },
        RawEvent {
            uid: Some("x".to_string()),
            summary: None,
            start: None,
            end: Some(day(2024, 1, 2)),
            location: None,
        },
    ];
    let out = reconcile(&eng, &events, &vec![], d(2024, 1, 1), None).unwrap();
    assert_eq!(
        out.rejected,
        vec![
            (0, PerEventError::MissingIdentifier),
            (1, PerEventError::MissingIdentifier),
            (2, PerEventError::MissingDateRange),
        ]
    );
    assert!(out.outcomes.is_empty());
    assert!(out.creates.is_empty());
}

#[test]
fn window_excludes_distant_new_event() {
    let eng = engine();
    let window = Some(Window { days_past: 7, days_future: 30 });
    // Forty days past "now".
    let events = vec![raw("far", "Far", day(2024, 2, 10), day(2024, 2, 11))];
    let out = reconcile(&eng, &events, &vec![], d(2024, 1, 1), window).unwrap();
    assert!(out.creates.is_empty());
    assert_eq!(out.outcomes[0].1, Outcome::SkippedWindow);
}

#[test]
fn window_boundary_is_inclusive() {
    let eng = engine();
    let window = Some(Window { days_past: 7, days_future: 30 });
    // Exactly thirty days past "now".
    let events = vec![raw("edge", "Edge", day(2024, 1, 31), day(2024, 2, 1))];
    let out = reconcile(&eng, &events, &vec![], d(2024, 1, 1), window).unwrap();
    assert_eq!(out.creates.len(), 1);
    assert_eq!(out.outcomes[0].1, Outcome::Created);
}

#[test]
fn window_excludes_stale_past_event() {
    let eng = engine();
    let window = Some(Window { days_past: 7, days_future: 30 });
    // Twelve days before "now".
    let events = vec![raw("old", "Old", day(2023, 12, 20), day(2023, 12, 21))];
    let out = reconcile(&eng, &events, &vec![], d(2024, 1, 1), window).unwrap();
    assert!(out.creates.is_empty());
    assert_eq!(out.outcomes[0].1, Outcome::SkippedWindow);
}

#[test]
fn window_admits_recent_past_event() {
    let eng = engine();
    let window = Some(Window { days_past: 7, days_future: 30 });
    // Three days before "now".
    let events = vec![raw("recent", "Recent", day(2023, 12, 29), day(2023, 12, 30))];
    let out = reconcile(&eng, &events, &vec![], d(2024, 1, 1), window).unwrap();
    assert_eq!(out.outcomes[0].1, Outcome::Created);
}

#[test]
fn window_never_suppresses_updates() {
    let eng = engine();
    let window = Some(Window { days_past: 7, days_future: 30 });
    let events = vec![raw("far", "New title", day(2024, 2, 10), day(2024, 2, 11))];
    let records = vec![record(
        "r1",
        vec![
            ("Name", title_of("Old title")),
            ("UID", text_of("far")),
            ("Date", date_of(d(2024, 2, 10), None)),
        ],
    )];
    let out = reconcile(&eng, &events, &records, d(2024, 1, 1), window).unwrap();
    assert_eq!(out.outcomes[0].1, Outcome::Updated);
    assert_eq!(out.updates.len(), 1);
    assert_eq!(out.updates[0].record_id, "r1");
}

#[test]
fn orphaned_record_is_left_untouched() {
    let eng = engine();
    let records = vec![record("r1", vec![("UID", text_of("gone"))])];
    let out = reconcile(&eng, &vec![], &records, d(2024, 1, 1), None).unwrap();
    assert_eq!(out.outcomes, vec![("gone".to_string(), Outcome::Orphaned)]);
    assert!(out.updates.is_empty());
    assert!(out.creates.is_empty());
}

fn idempotence_source() -> Vec<RawEvent> {
    vec![
        raw("new", "Brand new", day(2024, 1, 10), day(2024, 1, 12)),
        raw("tracked", "Renamed", day(2024, 1, 5), day(2024, 1, 6)),
    ]
}

fn idempotence_records() -> Vec<Record> {
    vec![
        record(
            "r1",
            vec![
                ("Name", title_of("Old name")),
                ("UID", text_of("tracked")),
                ("Date", date_of(d(2024, 1, 5), None)),
            ],
        ),
        record("r2", vec![("UID", text_of("orphan"))]),
    ]
}

#[test]
fn rerun_after_applying_requests_is_quiet() {
    let eng = engine();
    let now = d(2024, 1, 1);
    let events = idempotence_source();
    let first = reconcile(&eng, &events, &idempotence_records(), now, None).unwrap();
    assert_eq!(first.creates.len(), 1);
    assert_eq!(first.updates.len(), 1);

    // Apply the first run's requests to the destination snapshot.
    let mut applied = idempotence_records();
    for upd in first.updates {
        let target = applied
            .iter_mut()
            .find(|r| r.record_id == upd.record_id)
            .expect("update must target a known record");
        for (name, value) in upd.patch.entries {
            target.fields.insert(name, value);
        }
    }
    for (i, create) in first.creates.into_iter().enumerate() {
        applied.push(Record { record_id: format!("fresh{}", i), fields: create.fields });
    }

    let second = reconcile(&eng, &events, &applied, now, None).unwrap();
    assert!(second.creates.is_empty());
    assert!(second.updates.is_empty());
    for (_, outcome) in second.outcomes {
        assert!(matches!(outcome, Outcome::UpToDate | Outcome::Orphaned));
    }
}
