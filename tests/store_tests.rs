use eventually::json::JsonValue;
use eventually::store::{Notification, Outcome, Store};

fn text(s: &str) -> JsonValue {
    JsonValue::Text(s.to_string())
}

fn obj(entries: Vec<(&str, JsonValue)>) -> JsonValue {
    JsonValue::Object(entries.into_iter().map(|(k, v)| (k.to_string(), v)).collect())
}

const ID_A: &str = "00000000-0000-0000-0000-00000000000a";
const ID_B: &str = "00000000-0000-0000-0000-00000000000b";

fn event(id: &str, created: &str, x: i64, nuts: i64) -> JsonValue {
    obj(vec![
        ("id", text(id)),
        ("created", text(created)),
        ("x", JsonValue::Number(x)),
        ("nuts", JsonValue::Number(nuts)),
    ])
}

fn field<'a>(v: &'a JsonValue, k: &str) -> Option<&'a JsonValue> {
    match v {
        JsonValue::Object(e) => e.iter().find(|(key, _)| key == k).map(|(_, v)| v),
        _ => None,
    }
}

fn number(v: &JsonValue, k: &str) -> Option<i64> {
    match field(v, k) {
        Some(JsonValue::Number(n)) => Some(*n),
        _ => None,
    }
}

#[test]
fn volatile_only_revision_then_real_change() {
    let mut store = Store::new();
    let r1 = store.ingest(vec![event(ID_A, "2020-01-01T00:00:00Z", 1, 0)], "feed", 1000);
    assert_eq!(r1.outcomes, vec![Outcome::Inserted]);
    let r2 = store.ingest(vec![event(ID_A, "2020-01-01T00:05:00Z", 1, 99)], "feed", 2000);
    assert_eq!(r2.outcomes, vec![Outcome::Unchanged]);
    assert_eq!(store.versions().len(), 0);
    let live = store.get(10).unwrap();
    assert_eq!(number(&live.body, "nuts"), Some(99));
    let r3 = store.ingest(vec![event(ID_A, "2020-01-01T00:10:00Z", 2, 99)], "feed", 3000);
    assert_eq!(r3.outcomes, vec![Outcome::Changed]);
    assert_eq!(r3.changed, 1);
    assert_eq!(store.versions().len(), 1);
    let v = &store.versions()[0];
    assert_eq!(v.doc_id, 10);
    assert_eq!(v.observed_at, 3000);
    assert_eq!(number(&v.snapshot, "x"), Some(1));
    assert_eq!(number(&v.snapshot, "nuts"), Some(99));
    assert_eq!(v.content_hash.len(), 32);
    let live = store.get(10).unwrap();
    assert_eq!(number(&live.body, "x"), Some(2));
    assert_eq!(store.live_count(), 1);
}

#[test]
fn origination_change_alone_is_no_revision() {
    let mut store = Store::new();
    store.ingest(vec![event(ID_A, "2020-01-01T00:00:00Z", 1, 0)], "feed", 1000);
    let r = store.ingest(vec![event(ID_A, "2020-01-01T00:05:00Z", 1, 0)], "feed", 2000);
    assert_eq!(r.outcomes, vec![Outcome::Unchanged]);
    assert_eq!(store.versions().len(), 0);
    assert_eq!(store.get(10).unwrap().created, 1577837100000);
}

#[test]
fn same_document_twice_is_idempotent() {
    let mut store = Store::new();
    store.ingest(vec![event(ID_A, "2020-01-01T00:00:00Z", 1, 0)], "feed", 1000);
    let r = store.ingest(vec![event(ID_A, "2020-01-01T00:00:00Z", 1, 0)], "other", 5000);
    assert_eq!(r.outcomes, vec![Outcome::Unchanged]);
    assert_eq!(r.inserted + r.changed, 0);
    assert_eq!(store.live_count(), 1);
    assert_eq!(store.versions().len(), 0);
    let notes = store.take_notifications();
    assert_eq!(notes.len(), 1);
    assert!(matches!(notes[0], Notification::NewEvent(10)));
}

#[test]
fn history_keeps_all_but_the_live_revision() {
    let mut store = Store::new();
    for x in 0..5 {
        store.ingest(vec![event(ID_A, "2020-01-01T00:00:00Z", x, 0)], "feed", 1000 + x);
    }
    let versions = store.versions();
    assert_eq!(versions.len(), 4);
    for (k, v) in versions.iter().enumerate() {
        assert_eq!(number(&v.snapshot, "x"), Some(k as i64));
        assert_eq!(v.observed_at, 1001 + k as i64);
    }
    assert_eq!(number(&store.get(10).unwrap().body, "x"), Some(4));
}

#[test]
fn malformed_document_is_skipped_and_the_rest_ingested() {
    let mut store = Store::new();
    let batch = vec![
        event("00000000-0000-0000-0000-000000000001", "2020-01-01T00:00:01Z", 1, 0),
        event("00000000-0000-0000-0000-000000000002", "2020-01-01T00:00:02Z", 1, 0),
        event("00000000-0000-0000-0000-000000000003", "not a time", 1, 0),
        event("00000000-0000-0000-0000-000000000004", "2020-01-01T00:00:04Z", 1, 0),
        event("00000000-0000-0000-0000-000000000005", "2020-01-01T00:00:05Z", 1, 0),
    ];
    let r = store.ingest(batch, "feed", 1000);
    assert_eq!(r.skipped, 1);
    assert_eq!(r.inserted, 4);
    assert_eq!(r.ids, vec![Some(1), Some(2), None, Some(4), Some(5)]);
    assert_eq!(r.outcomes[2], Outcome::Skipped(eventually::Malformation::MalformedTimestamp));
    for id in [1u128, 2, 4, 5] {
        assert!(store.get(id).is_some());
    }
    assert!(store.get(3).is_none());
    assert_eq!(r.latest_created, Some(1577836805000));
}

#[test]
fn latest_created_is_the_greatest_in_the_batch() {
    let mut store = Store::new();
    let batch = vec![
        event(ID_A, "2020-01-01T00:05:00Z", 1, 0),
        event(ID_B, "2020-01-01T00:00:00Z", 1, 0),
    ];
    let r = store.ingest(batch, "feed", 1000);
    assert_eq!(r.latest_created, Some(1577837100000));
    assert_eq!(store.latest_created(), Some(1577837100000));
}

#[test]
fn empty_batch_reports_nothing() {
    let mut store = Store::new();
    let r = store.ingest(vec![], "feed", 1000);
    assert_eq!(r.latest_created, None);
    assert_eq!(r.outcomes.len(), 0);
    assert_eq!(store.latest_created(), None);
}

#[test]
fn notifications_name_new_and_changed_documents() {
    let mut store = Store::new();
    store.ingest(vec![event(ID_A, "2020-01-01T00:00:00Z", 1, 0)], "feed", 1000);
    store.ingest(vec![event(ID_A, "2020-01-01T00:00:00Z", 2, 0)], "feed", 2000);
    let notes = store.take_notifications();
    assert_eq!(notes.len(), 2);
    assert!(matches!(notes[0], Notification::NewEvent(10)));
    match &notes[1] {
        Notification::ChangedEvent(id, hash) => {
            assert_eq!(*id, 10);
            assert_eq!(hash, &store.versions()[0].content_hash);
        }
        _ => panic!("expected a change notification"),
    }
    assert!(store.take_notifications().is_empty());
}

#[test]
fn repeated_archive_at_same_instant_is_kept_once() {
    let mut store = Store::new();
    let h1 = store.archive(10, obj(vec![("x", JsonValue::Number(1))]), 500);
    let h2 = store.archive(10, obj(vec![("x", JsonValue::Number(1))]), 500);
    assert_eq!(h1, h2);
    assert_eq!(store.versions().len(), 1);
    store.archive(10, obj(vec![("x", JsonValue::Number(1))]), 600);
    assert_eq!(store.versions().len(), 2);
}

#[test]
fn ingest_now_stamps_a_recent_time() {
    let mut store = Store::new();
    let r = store.ingest_now(vec![event(ID_A, "2020-01-01T00:00:00Z", 1, 0)], "feed");
    assert_eq!(r.inserted, 1);
    assert!(store.get(10).unwrap().ingested_at > 1577836800000);
}

#[test]
fn restored_document_is_compared_against() {
    let mut store = Store::new();
    let body = obj(vec![
        ("id", text(ID_A)),
        ("created", JsonValue::Number(1577836800000)),
        ("x", JsonValue::Number(1)),
        (
            "metadata",
            obj(vec![
                ("_eventually_ingest_source", text("feed")),
                ("_eventually_ingest_time", JsonValue::Number(7)),
            ]),
        ),
    ]);
    let doc = eventually::document::stored_document(body).unwrap();
    assert_eq!(doc.id, 10);
    assert_eq!(doc.source, "feed");
    assert_eq!(doc.ingested_at, 7);
    store.restore(doc);
    let r = store.ingest(vec![event(ID_A, "2020-01-01T00:00:00Z", 1, 5)], "feed", 1000);
    assert_eq!(r.outcomes, vec![Outcome::Unchanged]);
}

#[test]
fn backfill_finds_redacted_documents_only() {
    let mut store = Store::new();
    let redacted = obj(vec![
        ("id", text(ID_A)),
        ("created", text("2020-01-01T00:00:00Z")),
        ("metadata", obj(vec![("redacted", JsonValue::Bool(true))])),
    ]);
    let library = obj(vec![
        ("id", text(ID_B)),
        ("created", text("2020-01-01T00:05:00Z")),
        (
            "metadata",
            obj(vec![
                ("redacted", JsonValue::Bool(true)),
                ("_eventually_book_title", text("Book")),
            ]),
        ),
    ]);
    store.ingest(vec![redacted, library], "feed", 1000);
    assert_eq!(store.backfill_starts(), vec![1577836800000]);
}
