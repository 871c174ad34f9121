use eventually::json::JsonValue;
use eventually::library::{annotate_library_event, chapter_id, library_chapters, Chapter};

fn text(s: &str) -> JsonValue {
    JsonValue::Text(s.to_string())
}

fn obj(entries: Vec<(&str, JsonValue)>) -> JsonValue {
    JsonValue::Object(entries.into_iter().map(|(k, v)| (k.to_string(), v)).collect())
}

fn listing() -> JsonValue {
    JsonValue::Array(vec![
        obj(vec![
            ("title", text("First")),
            (
                "chapters",
                JsonValue::Array(vec![
                    obj(vec![("id", text("c1")), ("title", text("One")), ("redacted", JsonValue::Bool(false))]),
                    obj(vec![("id", text("c2")), ("title", text("Two")), ("redacted", JsonValue::Bool(true))]),
                    obj(vec![("id", text("c3")), ("title", text("Three"))]),
                ]),
            ),
        ]),
        obj(vec![("title", text("Empty"))]),
        obj(vec![
            ("title", text("Second")),
            ("chapters", JsonValue::Array(vec![obj(vec![("id", text("c4"))])])),
        ]),
    ])
}

#[test]
fn redacted_chapters_are_left_out() {
    let chapters = library_chapters(&listing());
    assert_eq!(
        chapters,
        vec![
            Chapter { book: 0, chapter: 0 },
            Chapter { book: 0, chapter: 2 },
            Chapter { book: 2, chapter: 0 },
        ]
    );
}

#[test]
fn listing_that_is_not_an_array_has_no_chapters() {
    assert!(library_chapters(&obj(vec![])).is_empty());
}

#[test]
fn chapter_ids_are_read() {
    let l = listing();
    assert_eq!(chapter_id(&l, Chapter { book: 2, chapter: 0 }), Some("c4".to_string()));
    assert_eq!(chapter_id(&l, Chapter { book: 1, chapter: 0 }), None);
}

#[test]
fn events_are_annotated_with_book_and_chapter() {
    let l = listing();
    let event = obj(vec![("id", text("e")), ("metadata", obj(vec![("k", JsonValue::Number(1))]))]);
    let out = annotate_library_event(event, &l, Chapter { book: 0, chapter: 2 }).unwrap();
    let JsonValue::Object(e) = out else { panic!("event is an object") };
    let JsonValue::Object(m) = &e[1].1 else { panic!("metadata is an object") };
    assert_eq!(m.len(), 4);
    assert_eq!(m[1].0, "_eventually_book_title");
    assert!(matches!(&m[1].1, JsonValue::Text(s) if s == "First"));
    assert_eq!(m[2].0, "_eventually_chapter_id");
    assert!(matches!(&m[2].1, JsonValue::Text(s) if s == "c3"));
    assert_eq!(m[3].0, "_eventually_chapter_title");
    assert!(matches!(&m[3].1, JsonValue::Text(s) if s == "Three"));
}

#[test]
fn missing_titles_become_null_and_metadata_is_added() {
    let l = listing();
    let event = obj(vec![("id", text("e"))]);
    let out = annotate_library_event(event, &l, Chapter { book: 2, chapter: 0 }).unwrap();
    let JsonValue::Object(e) = out else { panic!("event is an object") };
    assert_eq!(e[1].0, "metadata");
    let JsonValue::Object(m) = &e[1].1 else { panic!("metadata is an object") };
    assert_eq!(m.len(), 3);
    assert!(matches!(m[0].1, JsonValue::Text(ref s) if s == "Second"));
    assert!(matches!(m[1].1, JsonValue::Text(ref s) if s == "c4"));
    assert!(matches!(m[2].1, JsonValue::Null));
}

#[test]
fn events_that_cannot_be_annotated() {
    let l = listing();
    assert!(annotate_library_event(JsonValue::Null, &l, Chapter { book: 0, chapter: 0 }).is_none());
    let bad = obj(vec![("metadata", JsonValue::Number(1))]);
    assert!(annotate_library_event(bad, &l, Chapter { book: 0, chapter: 0 }).is_none());
    let ok = obj(vec![]);
    assert!(annotate_library_event(ok, &l, Chapter { book: 5, chapter: 0 }).is_none());
}
