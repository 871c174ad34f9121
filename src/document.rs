use vstd::prelude::*;
use crate::external::{parse_timestamp_millis, parse_uuid, rfc3339_millis, uuid_value};
use crate::json::{JsonValue, ingest_source_key, ingest_time_key, metadata_key};
use crate::text::str_eq;

verus! {

/// An event document in its stored form.
///
/// `body` is the upstream object with `created` rewritten to epoch milliseconds and the
/// provenance stamps written into its `metadata` object.
#[derive(Debug)]
pub struct Document {
    pub id: u128,
    pub created: i64,
    pub source: String,
    pub ingested_at: i64,
    pub body: JsonValue,
}

/// Why an upstream document could not be ingested.
#[derive(Debug, Clone, Copy, PartialEq, Eq, Structural)]
pub enum Malformation {
    NotAnObject,
    MissingId,
    MalformedId,
    MalformedTimestamp,
    MalformedMetadata,
}

pub open spec fn id_key() -> Seq<char> {
    "id"@
}

pub open spec fn created_key() -> Seq<char> {
    "created"@
}

/// The value of the first entry with key `k`.
pub open spec fn lookup(e: Seq<(String, JsonValue)>, k: Seq<char>) -> Option<JsonValue>
    decreases e.len(),
{
    if e.len() == 0 {
        None
    } else if e[0].0@ == k {
        Some(e[0].1)
    } else {
        lookup(e.drop_first(), k)
    }
}

/// Where `lookup` finds nothing, no entry has the key.
pub proof fn lemma_lookup_none(e: Seq<(String, JsonValue)>, k: Seq<char>)
    requires
        lookup(e, k) is None,
    ensures
        forall|j: int| 0 <= j < e.len() ==> (#[trigger] e[j]).0@ != k,
    decreases e.len(),
{
    if e.len() > 0 {
        lemma_lookup_none(e.drop_first(), k);
        assert forall|j: int| 0 <= j < e.len() implies (#[trigger] e[j]).0@ != k by {
            if j > 0 {
                assert(e[j] == e.drop_first()[j - 1]);
            }
        }
    }
}

/// The identifier that an object's `id` entry holds.
pub open spec fn id_of(e: Seq<(String, JsonValue)>) -> Option<u128> {
    match lookup(e, id_key()) {
        Some(JsonValue::Text(s)) => uuid_value(s@),
        _ => None,
    }
}

/// The origination instant that an object's `created` entry holds.
pub open spec fn created_of(e: Seq<(String, JsonValue)>) -> Option<i64> {
    match lookup(e, created_key()) {
        Some(JsonValue::Text(s)) => rfc3339_millis(s@),
        _ => None,
    }
}

/// Every `metadata` entry holds an object or null, so that it can take the stamps.
pub open spec fn metadata_ok(e: Seq<(String, JsonValue)>) -> bool {
    forall|i: int|
        #![trigger e[i]]
        0 <= i < e.len() && e[i].0@ == metadata_key() ==> (e[i].1 is Null || e[i].1 is Object)
}

/// What is wrong with a raw upstream document, if anything; the first check that fails wins.
pub open spec fn malformation(raw: JsonValue) -> Option<Malformation> {
    match raw {
        JsonValue::Object(e) => if lookup(e@, id_key()) is None {
            Some(Malformation::MissingId)
        } else if id_of(e@) is None {
            Some(Malformation::MalformedId)
        } else if created_of(e@) is None {
            Some(Malformation::MalformedTimestamp)
        } else if !metadata_ok(e@) {
            Some(Malformation::MalformedMetadata)
        } else {
            None
        },
        _ => Some(Malformation::NotAnObject),
    }
}

pub open spec fn is_stamp_key(k: Seq<char>) -> bool {
    k == ingest_source_key() || k == ingest_time_key()
}

/// The entries of a metadata object without the provenance stamps.
pub open spec fn without_stamps(xs: Seq<(String, JsonValue)>) -> Seq<(String, JsonValue)>
    decreases xs.len(),
{
    if xs.len() == 0 {
        seq![]
    } else if is_stamp_key(xs.last().0@) {
        without_stamps(xs.drop_last())
    } else {
        without_stamps(xs.drop_last()).push(xs.last())
    }
}

pub open spec fn entries_or_empty(v: JsonValue) -> Seq<(String, JsonValue)> {
    match v {
        JsonValue::Object(e) => e@,
        _ => seq![],
    }
}

/// `out` is the metadata `m` with fresh stamps: its entries without the old stamps, then the
/// source, then the ingestion time.
pub open spec fn stamped_metadata(m: JsonValue, out: JsonValue, source: Seq<char>, now: i64) -> bool {
    let kept = without_stamps(entries_or_empty(m));
    &&& out is Object
    &&& out->Object_0@.len() == kept.len() + 2
    &&& out->Object_0@.take(kept.len() as int) == kept
    &&& out->Object_0@[kept.len() as int].0@ == ingest_source_key()
    &&& out->Object_0@[kept.len() as int].1 is Text
    &&& out->Object_0@[kept.len() as int].1->Text_0@ == source
    &&& out->Object_0@[kept.len() as int + 1].0@ == ingest_time_key()
    &&& out->Object_0@[kept.len() as int + 1].1 == JsonValue::Number(now)
}

/// One entry of the stored body against the raw entry it came from.
pub open spec fn stamped_entry(
    x: (String, JsonValue),
    y: (String, JsonValue),
    created: i64,
    source: Seq<char>,
    now: i64,
) -> bool {
    &&& y.0@ == x.0@
    &&& if x.0@ == created_key() {
        y.1 == JsonValue::Number(created)
    } else if x.0@ == metadata_key() {
        stamped_metadata(x.1, y.1, source, now)
    } else {
        y.1 == x.1
    }
}

/// `body` is the stored form of the raw entries `raw`: each entry kept in place, `created`
/// rewritten, each `metadata` object stamped, and a stamped `metadata` object appended where the
/// raw document had none.
pub open spec fn stamped_body(
    raw: Seq<(String, JsonValue)>,
    body: JsonValue,
    created: i64,
    source: Seq<char>,
    now: i64,
) -> bool {
    let out = body->Object_0@;
    &&& body is Object
    &&& forall|i: int|
        #![trigger raw[i]]
        0 <= i < raw.len() ==> stamped_entry(raw[i], out[i], created, source, now)
    &&& if lookup(raw, metadata_key()) is Some {
        out.len() == raw.len()
    } else {
        &&& out.len() == raw.len() + 1
        &&& out[raw.len() as int].0@ == metadata_key()
        &&& stamped_metadata(JsonValue::Null, out[raw.len() as int].1, source, now)
    }
}

/// The position of the first entry with key `k`.
pub fn find_entry(e: &Vec<(String, JsonValue)>, k: &str) -> (r: Option<usize>)
    ensures
        match r {
            None => lookup(e@, k@) is None,
            Some(i) => i < e@.len() && lookup(e@, k@) == Some(e@[i as int].1) && e@[i as int].0@
                == k@ && forall|j: int| 0 <= j < i ==> (#[trigger] e@[j]).0@ != k@,
        },
{
    let mut i: usize = 0;
    proof {
        assert(e@.subrange(0, e@.len() as int) =~= e@);
    }
    while i < e.len()
        invariant
            i <= e@.len(),
            lookup(e@, k@) == lookup(e@.subrange(i as int, e@.len() as int), k@),
            forall|j: int| 0 <= j < i ==> (#[trigger] e@[j]).0@ != k@,
        decreases e@.len() - i,
    {
        let ghost rest = e@.subrange(i as int, e@.len() as int);
        if str_eq(e[i].0.as_str(), k) {
            return Some(i);
        }
        proof {
            assert(rest.drop_first() =~= e@.subrange(i + 1, e@.len() as int));
        }
        i = i + 1;
    }
    None
}

/// Writes fresh provenance stamps into a metadata value (an object or null).
fn stamp_metadata(m: JsonValue, source: &str, now: i64) -> (r: JsonValue)
    requires
        m is Null || m is Object,
    ensures
        stamped_metadata(m, r, source@, now),
{
    let ghost xs = entries_or_empty(m);
    let mut rest: Vec<(String, JsonValue)> = match m {
        JsonValue::Object(e) => e,
        _ => Vec::new(),
    };
    let mut out: Vec<(String, JsonValue)> = Vec::new();
    let ghost mut n: int = 0;
    proof {
        assert(xs.subrange(0, xs.len() as int) =~= xs);
        assert(xs.take(0) =~= seq![]);
    }
    while rest.len() > 0
        invariant
            0 <= n <= xs.len(),
            rest@ == xs.subrange(n, xs.len() as int),
            out@ == without_stamps(xs.take(n)),
        decreases rest@.len(),
    {
        let entry = rest.remove(0);
        proof {
            assert(xs.take(n + 1).drop_last() =~= xs.take(n));
            assert(xs.take(n + 1).last() == entry);
        }
        let stamp = str_eq(entry.0.as_str(), "_eventually_ingest_source") || str_eq(
            entry.0.as_str(),
            "_eventually_ingest_time",
        );
        if !stamp {
            out.push(entry);
        }
        proof {
            n = n + 1;
            assert(rest@ =~= xs.subrange(n, xs.len() as int));
        }
    }
    proof {
        assert(xs.take(xs.len() as int) =~= xs);
    }
    let ghost kept = out@;
    out.push(("_eventually_ingest_source".to_owned(), JsonValue::Text(source.to_owned())));
    out.push(("_eventually_ingest_time".to_owned(), JsonValue::Number(now)));
    proof {
        assert(out@.take(kept.len() as int) =~= kept);
    }
    JsonValue::Object(out)
}

/// The stored form of the raw entries `entries`, whose origination instant is `created`
/// (epoch milliseconds), stamped with `source` and `now`.
pub fn stamp_body(entries: Vec<(String, JsonValue)>, created: i64, source: &str, now: i64) -> (r: JsonValue)
    requires
        metadata_ok(entries@),
    ensures
        stamped_body(entries@, r, created, source@, now),
{
    let has_metadata = find_entry(&entries, "metadata").is_some();
    let ghost raw_e = entries@;
    let mut rest = entries;
    let mut out: Vec<(String, JsonValue)> = Vec::new();
    let ghost mut n: int = 0;
    proof {
        assert(raw_e.subrange(0, raw_e.len() as int) =~= raw_e);
    }
    while rest.len() > 0
        invariant
            0 <= n <= raw_e.len(),
            rest@ == raw_e.subrange(n, raw_e.len() as int),
            out@.len() == n,
            metadata_ok(raw_e),
            forall|i: int|
                #![trigger raw_e[i]]
                0 <= i < n ==> stamped_entry(raw_e[i], out@[i], created, source@, now),
        decreases rest@.len(),
    {
        let (k, v) = rest.remove(0);
        proof {
            assert(raw_e[n] == (k, v));
        }
        if str_eq(k.as_str(), "created") {
            out.push((k, JsonValue::Number(created)));
        } else if str_eq(k.as_str(), "metadata") {
            let m = stamp_metadata(v, source, now);
            out.push((k, m));
        } else {
            out.push((k, v));
        }
        proof {
            n = n + 1;
            assert(rest@ =~= raw_e.subrange(n, raw_e.len() as int));
        }
    }
    if !has_metadata {
        let m = stamp_metadata(JsonValue::Null, source, now);
        out.push(("metadata".to_owned(), m));
    }
    JsonValue::Object(out)
}

/// Turns a raw upstream document into its stored form, stamped with `source` and `now`
/// (epoch milliseconds), or says why it cannot be ingested.
pub fn canonicalize(raw: JsonValue, source: &str, now: i64) -> (r: Result<Document, Malformation>)
    ensures
        match r {
            Err(m) => malformation(raw) == Some(m),
            Ok(d) => {
                &&& malformation(raw) is None
                &&& Some(d.id) == id_of(raw->Object_0@)
                &&& Some(d.created) == created_of(raw->Object_0@)
                &&& d.source@ == source@
                &&& d.ingested_at == now
                &&& stamped_body(raw->Object_0@, d.body, d.created, source@, now)
            },
        },
{
    let entries = match raw {
        JsonValue::Object(e) => e,
        _ => {
            return Err(Malformation::NotAnObject);
        },
    };
    let id = match find_entry(&entries, "id") {
        None => {
            return Err(Malformation::MissingId);
        },
        Some(i) => match &entries[i].1 {
            JsonValue::Text(s) => match parse_uuid(s.as_str()) {
                Some(u) => u,
                None => {
                    return Err(Malformation::MalformedId);
                },
            },
            _ => {
                return Err(Malformation::MalformedId);
            },
        },
    };
    let created = match find_entry(&entries, "created") {
        None => {
            return Err(Malformation::MalformedTimestamp);
        },
        Some(i) => match &entries[i].1 {
            JsonValue::Text(s) => match parse_timestamp_millis(s.as_str()) {
                Some(t) => t,
                None => {
                    return Err(Malformation::MalformedTimestamp);
                },
            },
            _ => {
                return Err(Malformation::MalformedTimestamp);
            },
        },
    };
    let mut j: usize = 0;
    while j < entries.len()
        invariant
            j <= entries@.len(),
            raw is Object && raw->Object_0 == entries,
            lookup(entries@, id_key()) is Some,
            id_of(entries@) == Some(id),
            created_of(entries@) == Some(created),
            forall|i: int|
                #![trigger entries@[i]]
                0 <= i < j && entries@[i].0@ == metadata_key() ==> (entries@[i].1 is Null
                    || entries@[i].1 is Object),
        decreases entries@.len() - j,
    {
        if str_eq(entries[j].0.as_str(), "metadata") {
            match &entries[j].1 {
                JsonValue::Null => {},
                JsonValue::Object(_) => {},
                _ => {
                    assert(!metadata_ok(entries@));
                    return Err(Malformation::MalformedMetadata);
                },
            }
        }
        j = j + 1;
    }
    let body = stamp_body(entries, created, source, now);
    Ok(
        Document {
            id,
            created,
            source: source.to_owned(),
            ingested_at: now,
            body,
        },
    )
}

pub open spec fn redacted_key() -> Seq<char> {
    "redacted"@
}

pub open spec fn book_title_key() -> Seq<char> {
    "_eventually_book_title"@
}

/// A stored body still awaits its un-redacted form: its metadata says it is redacted and it
/// did not come from the library feed.
pub open spec fn awaits_backfill(body: JsonValue) -> bool {
    match lookup(entries_or_empty(body), metadata_key()) {
        Some(JsonValue::Object(m)) => lookup(m@, redacted_key()) == Some(JsonValue::Bool(true))
            && lookup(m@, book_title_key()) is None,
        _ => false,
    }
}

/// Whether the stored document `d` still awaits its un-redacted form.
pub fn needs_backfill(d: &Document) -> (r: bool)
    ensures
        r == awaits_backfill(d.body),
{
    match &d.body {
        JsonValue::Object(e) => match find_entry(e, "metadata") {
            Some(i) => match &e[i].1 {
                JsonValue::Object(m) => {
                    let redacted = match find_entry(m, "redacted") {
                        Some(j) => match &m[j].1 {
                            JsonValue::Bool(b) => *b,
                            _ => false,
                        },
                        None => false,
                    };
                    redacted && find_entry(m, "_eventually_book_title").is_none()
                },
                _ => false,
            },
            None => false,
        },
        _ => false,
    }
}

/// The text under key `k` of entries `e`.
pub open spec fn text_at(e: Seq<(String, JsonValue)>, k: Seq<char>) -> Option<Seq<char>> {
    match lookup(e, k) {
        Some(JsonValue::Text(s)) => Some(s@),
        _ => None,
    }
}

/// The integer under key `k` of entries `e`.
pub open spec fn number_at(e: Seq<(String, JsonValue)>, k: Seq<char>) -> Option<i64> {
    match lookup(e, k) {
        Some(JsonValue::Number(n)) => Some(n),
        _ => None,
    }
}

/// The stamps of a stored body: its metadata's source and ingestion time.
pub open spec fn stamps_of(body: JsonValue) -> Option<(Seq<char>, i64)> {
    match lookup(entries_or_empty(body), metadata_key()) {
        Some(JsonValue::Object(m)) => match (text_at(m@, ingest_source_key()), number_at(m@, ingest_time_key())) {
            (Some(s), Some(t)) => Some((s, t)),
            _ => None,
        },
        _ => None,
    }
}

/// Whether `body` reads back as a stored document: an object with a UUID `id`, an integral
/// `created` and both stamps in its metadata.
pub open spec fn readable_stored(body: JsonValue) -> bool {
    &&& body is Object
    &&& text_at(body->Object_0@, id_key()) is Some
    &&& uuid_value(text_at(body->Object_0@, id_key())->0) is Some
    &&& number_at(body->Object_0@, created_key()) is Some
    &&& stamps_of(body) is Some
}

fn text_entry<'a>(e: &'a Vec<(String, JsonValue)>, k: &str) -> (r: Option<&'a String>)
    ensures
        match r {
            Some(s) => text_at(e@, k@) == Some(s@),
            None => text_at(e@, k@) is None,
        },
{
    match find_entry(e, k) {
        Some(i) => match &e[i].1 {
            JsonValue::Text(s) => Some(s),
            _ => None,
        },
        None => None,
    }
}

fn number_entry(e: &Vec<(String, JsonValue)>, k: &str) -> (r: Option<i64>)
    ensures
        r == number_at(e@, k@),
{
    match find_entry(e, k) {
        Some(i) => match &e[i].1 {
            JsonValue::Number(n) => Some(*n),
            _ => None,
        },
        None => None,
    }
}

/// Reads a document back from its stored body, as the live table holds it.
pub fn stored_document(body: JsonValue) -> (r: Option<Document>)
    ensures
        match r {
            Some(d) => {
                &&& readable_stored(body)
                &&& Some(d.id) == uuid_value(text_at(body->Object_0@, id_key())->0)
                &&& Some(d.created) == number_at(body->Object_0@, created_key())
                &&& stamps_of(body) == Some((d.source@, d.ingested_at))
                &&& d.body == body
            },
            None => !readable_stored(body),
        },
{
    let (id, created, source, ingested_at) = match &body {
        JsonValue::Object(e) => {
            let id = match text_entry(e, "id") {
                Some(s) => match parse_uuid(s.as_str()) {
                    Some(u) => u,
                    None => {
                        return None;
                    },
                },
                None => {
                    return None;
                },
            };
            let created = match number_entry(e, "created") {
                Some(c) => c,
                None => {
                    return None;
                },
            };
            let (source, ingested_at) = match find_entry(e, "metadata") {
                Some(i) => match &e[i].1 {
                    JsonValue::Object(m) => match (
                        text_entry(m, "_eventually_ingest_source"),
                        number_entry(m, "_eventually_ingest_time"),
                    ) {
                        (Some(s), Some(t)) => (s.clone(), t),
                        _ => {
                            return None;
                        },
                    },
                    _ => {
                        return None;
                    },
                },
                None => {
                    return None;
                },
            };
            (id, created, source, ingested_at)
        },
        _ => {
            return None;
        },
    };
    Some(Document { id, created, source, ingested_at, body })
}

} // verus!
