use eventually::canonical::content_hash;
use eventually::detect::is_meaningful_change;
use eventually::document::{canonicalize, Malformation};
use eventually::json::{contains, duplicate, JsonValue, MaskLevel};

fn text(s: &str) -> JsonValue {
    JsonValue::Text(s.to_string())
}

fn obj(entries: Vec<(&str, JsonValue)>) -> JsonValue {
    JsonValue::Object(entries.into_iter().map(|(k, v)| (k.to_string(), v)).collect())
}

fn doc(body_extra: Vec<(&str, JsonValue)>, now: i64) -> eventually::Document {
    let mut entries = vec![
        ("id", text("00000000-0000-0000-0000-00000000000a")),
        ("created", text("2020-01-01T00:00:00Z")),
    ];
    entries.extend(body_extra);
    canonicalize(obj(entries), "feed", now).unwrap()
}

#[test]
fn new_document_is_always_a_change() {
    let d = doc(vec![("x", JsonValue::Number(1))], 1);
    assert!(is_meaningful_change(None, &d));
}

#[test]
fn volatile_fields_do_not_count() {
    let a = doc(
        vec![
            ("nuts", JsonValue::Number(0)),
            ("metadata", obj(vec![("scales", JsonValue::Number(1)), ("kind", text("a"))])),
        ],
        1,
    );
    let b = doc(
        vec![
            ("nuts", JsonValue::Number(7)),
            ("metadata", obj(vec![("scales", JsonValue::Number(9)), ("kind", text("a"))])),
        ],
        2,
    );
    assert!(!is_meaningful_change(Some(&a), &b));
}

#[test]
fn non_volatile_fields_count() {
    let a = doc(vec![("metadata", obj(vec![("kind", text("a"))]))], 1);
    let b = doc(vec![("metadata", obj(vec![("kind", text("b"))]))], 1);
    assert!(is_meaningful_change(Some(&a), &b));
    let c = doc(vec![("x", JsonValue::Number(1))], 1);
    let d = doc(vec![], 1);
    assert!(is_meaningful_change(Some(&c), &d));
    assert!(is_meaningful_change(Some(&d), &c));
}

#[test]
fn nested_nuts_is_not_volatile() {
    let a = doc(vec![("metadata", obj(vec![("nuts", JsonValue::Number(1))]))], 1);
    let b = doc(vec![("metadata", obj(vec![("nuts", JsonValue::Number(2))]))], 1);
    assert!(is_meaningful_change(Some(&a), &b));
}

#[test]
fn key_order_does_not_count() {
    let a = obj(vec![("p", JsonValue::Number(1)), ("q", JsonValue::Bool(true))]);
    let b = obj(vec![("q", JsonValue::Bool(true)), ("p", JsonValue::Number(1))]);
    assert!(contains(&a, &b, MaskLevel::Plain));
    assert!(contains(&b, &a, MaskLevel::Plain));
}

#[test]
fn containment_is_one_way_for_extra_keys() {
    let a = obj(vec![("p", JsonValue::Number(1)), ("q", JsonValue::Null)]);
    let b = obj(vec![("p", JsonValue::Number(1))]);
    assert!(contains(&a, &b, MaskLevel::Plain));
    assert!(!contains(&b, &a, MaskLevel::Plain));
}

#[test]
fn arrays_compare_by_position() {
    let a = JsonValue::Array(vec![JsonValue::Number(1), JsonValue::Number(2)]);
    let b = JsonValue::Array(vec![JsonValue::Number(2), JsonValue::Number(1)]);
    let c = JsonValue::Array(vec![JsonValue::Number(1)]);
    assert!(!contains(&a, &b, MaskLevel::Plain));
    assert!(!contains(&a, &c, MaskLevel::Plain));
    assert!(contains(&a, &duplicate(&a), MaskLevel::Plain));
}

#[test]
fn duplicate_copies_nested_values() {
    let a = obj(vec![
        ("list", JsonValue::Array(vec![text("x"), JsonValue::Decimal("1.5".to_string())])),
        ("inner", obj(vec![("k", JsonValue::Bool(false))])),
    ]);
    let b = duplicate(&a);
    assert!(contains(&a, &b, MaskLevel::Plain) && contains(&b, &a, MaskLevel::Plain));
    assert_eq!(content_hash(&a), content_hash(&b));
}

#[test]
fn canonical_form_converts_and_stamps() {
    let d = doc(vec![("x", JsonValue::Number(1))], 42);
    assert_eq!(d.id, 10);
    assert_eq!(d.created, 1577836800000);
    assert_eq!(d.source, "feed");
    assert_eq!(d.ingested_at, 42);
    let JsonValue::Object(e) = &d.body else { panic!("body is an object") };
    assert_eq!(e[1].0, "created");
    assert!(matches!(e[1].1, JsonValue::Number(1577836800000)));
    assert_eq!(e[3].0, "metadata");
    let JsonValue::Object(m) = &e[3].1 else { panic!("metadata is an object") };
    assert_eq!(m[0].0, "_eventually_ingest_source");
    assert!(matches!(&m[0].1, JsonValue::Text(s) if s == "feed"));
    assert_eq!(m[1].0, "_eventually_ingest_time");
    assert!(matches!(m[1].1, JsonValue::Number(42)));
}

#[test]
fn stale_stamps_are_replaced() {
    let d = doc(
        vec![(
            "metadata",
            obj(vec![
                ("_eventually_ingest_time", JsonValue::Number(1)),
                ("kind", text("a")),
            ]),
        )],
        9,
    );
    let JsonValue::Object(e) = &d.body else { panic!("body is an object") };
    let JsonValue::Object(m) = &e[2].1 else { panic!("metadata is an object") };
    assert_eq!(m.len(), 3);
    assert_eq!(m[0].0, "kind");
    assert!(matches!(m[2].1, JsonValue::Number(9)));
}

#[test]
fn millisecond_timestamps_are_kept() {
    let raw = obj(vec![
        ("id", text("00000000-0000-0000-0000-00000000000a")),
        ("created", text("2020-01-01T00:00:00.250Z")),
    ]);
    assert_eq!(canonicalize(raw, "feed", 0).unwrap().created, 1577836800250);
}

#[test]
fn malformed_documents_are_named() {
    let cases = vec![
        (JsonValue::Array(vec![]), Malformation::NotAnObject),
        (obj(vec![("created", text("2020-01-01T00:00:00Z"))]), Malformation::MissingId),
        (
            obj(vec![("id", text("nope")), ("created", text("2020-01-01T00:00:00Z"))]),
            Malformation::MalformedId,
        ),
        (
            obj(vec![("id", JsonValue::Number(3)), ("created", text("2020-01-01T00:00:00Z"))]),
            Malformation::MalformedId,
        ),
        (
            obj(vec![("id", text("00000000-0000-0000-0000-00000000000a"))]),
            Malformation::MalformedTimestamp,
        ),
        (
            obj(vec![
                ("id", text("00000000-0000-0000-0000-00000000000a")),
                ("created", text("yesterday")),
            ]),
            Malformation::MalformedTimestamp,
        ),
        (
            obj(vec![
                ("id", text("00000000-0000-0000-0000-00000000000a")),
                ("created", text("2020-01-01T00:00:00Z")),
                ("metadata", JsonValue::Number(1)),
            ]),
            Malformation::MalformedMetadata,
        ),
    ];
    for (raw, expected) in cases {
        assert_eq!(canonicalize(raw, "feed", 0).unwrap_err(), expected);
    }
}

#[test]
fn stamping_rewrites_created_and_adds_metadata() {
    let entries = vec![
        ("created".to_string(), text("whenever")),
        ("x".to_string(), JsonValue::Number(1)),
    ];
    let body = eventually::document::stamp_body(entries, 123, "src", 456);
    let JsonValue::Object(e) = body else { panic!("body is an object") };
    assert_eq!(e.len(), 3);
    assert!(matches!(e[0].1, JsonValue::Number(123)));
    assert!(matches!(e[1].1, JsonValue::Number(1)));
    assert_eq!(e[2].0, "metadata");
    let JsonValue::Object(m) = &e[2].1 else { panic!("metadata is an object") };
    assert!(matches!(&m[0].1, JsonValue::Text(s) if s == "src"));
    assert!(matches!(m[1].1, JsonValue::Number(456)));
}
