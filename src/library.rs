use vstd::prelude::*;
use crate::document::{entries_or_empty, find_entry, lemma_lookup_none, lookup};
use crate::json::{JsonValue, duplicate, identical, metadata_key};
use crate::text::str_eq;

verus! {

/// A chapter of the library feed, by the position of its book and its position in the book.
#[derive(Debug, Clone, Copy, PartialEq, Eq, Structural)]
pub struct Chapter {
    pub book: usize,
    pub chapter: usize,
}

/// The items of an array; nothing for any other value.
pub open spec fn items_of(v: JsonValue) -> Seq<JsonValue> {
    match v {
        JsonValue::Array(x) => x@,
        _ => seq![],
    }
}

/// The value under key `k` of an object; null where there is none.
pub open spec fn field(v: JsonValue, k: Seq<char>) -> JsonValue {
    match lookup(entries_or_empty(v), k) {
        Some(x) => x,
        None => JsonValue::Null,
    }
}

pub open spec fn chapters_of(book: JsonValue) -> Seq<JsonValue> {
    items_of(field(book, "chapters"@))
}

pub open spec fn chapter_at(library: JsonValue, b: int, c: int) -> JsonValue {
    chapters_of(items_of(library)[b])[c]
}

/// Chapter `c` of book `b` exists and is not redacted, so its events can be fetched.
pub open spec fn readable_chapter(library: JsonValue, b: int, c: int) -> bool {
    &&& 0 <= b < items_of(library).len()
    &&& 0 <= c < chapters_of(items_of(library)[b]).len()
    &&& field(chapter_at(library, b, c), "redacted"@) != JsonValue::Bool(true)
}

pub open spec fn chapter_before(x: Chapter, y: Chapter) -> bool {
    x.book < y.book || (x.book == y.book && x.chapter < y.chapter)
}

/// The value under key `k` of `v`, if `v` is an object that has it.
pub fn field_of<'a>(v: &'a JsonValue, k: &str) -> (r: Option<&'a JsonValue>)
    ensures
        match r {
            Some(x) => lookup(entries_or_empty(*v), k@) == Some(*x) && field(*v, k@) == *x,
            None => lookup(entries_or_empty(*v), k@) is None && field(*v, k@) == JsonValue::Null,
        },
{
    match v {
        JsonValue::Object(e) => match find_entry(e, k) {
            Some(i) => Some(&e[i].1),
            None => None,
        },
        _ => None,
    }
}

fn items_ref<'a>(v: Option<&'a JsonValue>) -> (r: Option<&'a Vec<JsonValue>>)
    ensures
        match r {
            Some(x) => v is Some && *v->0 == JsonValue::Array(*x),
            None => v is None || !(*v->0 is Array),
        },
{
    match v {
        Some(JsonValue::Array(x)) => Some(x),
        _ => None,
    }
}

/// The chapters of the library listing whose events can be fetched, in the listing's order.
pub fn library_chapters(library: &JsonValue) -> (r: Vec<Chapter>)
    ensures
        forall|k: int|
            0 <= k < r@.len() ==> readable_chapter(
                *library,
                (#[trigger] r@[k]).book as int,
                r@[k].chapter as int,
            ),
        forall|b: int, c: int|
            #[trigger] readable_chapter(*library, b, c) ==> r@.contains(
                Chapter { book: b as usize, chapter: c as usize },
            ),
        forall|k: int| 0 <= k < r@.len() - 1 ==> chapter_before(#[trigger] r@[k], r@[k + 1]),
{
    let mut r: Vec<Chapter> = Vec::new();
    let books = match library {
        JsonValue::Array(x) => x,
        _ => {
            return r;
        },
    };
    let mut b: usize = 0;
    while b < books.len()
        invariant
            b <= books@.len(),
            *library is Array && (*library)->Array_0 == *books,
            forall|k: int|
                0 <= k < r@.len() ==> readable_chapter(
                    *library,
                    (#[trigger] r@[k]).book as int,
                    r@[k].chapter as int,
                ) && r@[k].book < b,
            forall|bb: int, c: int|
                0 <= bb < b && #[trigger] readable_chapter(*library, bb, c) ==> r@.contains(
                    Chapter { book: bb as usize, chapter: c as usize },
                ),
            forall|k: int| 0 <= k < r@.len() - 1 ==> chapter_before(#[trigger] r@[k], r@[k + 1]),
        decreases books@.len() - b,
    {
        let chapters = items_ref(field_of(&books[b], "chapters"));
        match chapters {
            Some(cs) => {
                let ghost r_start = r@;
                let mut c: usize = 0;
                while c < cs.len()
                    invariant
                        b < books@.len(),
                        c <= cs@.len(),
                        *library is Array && (*library)->Array_0 == *books,
                        cs@ == chapters_of(books@[b as int]),
                        r_start.len() <= r@.len(),
                        r@.take(r_start.len() as int) == r_start,
                        forall|k: int|
                            0 <= k < r_start.len() ==> (#[trigger] r_start[k]).book < b,
                        forall|k: int|
                            0 <= k < r@.len() ==> readable_chapter(
                                *library,
                                (#[trigger] r@[k]).book as int,
                                r@[k].chapter as int,
                            ) && r@[k].book <= b,
                        forall|k: int|
                            r_start.len() <= k < r@.len() ==> (#[trigger] r@[k]).book == b
                                && r@[k].chapter < c,
                        forall|bb: int, cc: int|
                            0 <= bb < b && #[trigger] readable_chapter(*library, bb, cc)
                                ==> r@.contains(Chapter { book: bb as usize, chapter: cc as usize }),
                        forall|cc: int|
                            0 <= cc < c && #[trigger] readable_chapter(*library, b as int, cc)
                                ==> r@.contains(Chapter { book: b, chapter: cc as usize }),
                        forall|k: int|
                            0 <= k < r@.len() - 1 ==> chapter_before(#[trigger] r@[k], r@[k + 1]),
                    decreases cs@.len() - c,
                {
                    let redacted = match field_of(&cs[c], "redacted") {
                        Some(JsonValue::Bool(x)) => *x,
                        _ => false,
                    };
                    let ghost r0 = r@;
                    if !redacted {
                        let ch = Chapter { book: b, chapter: c };
                        r.push(ch);
                        proof {
                            assert(r@[r@.len() - 1] == ch);
                            assert forall|k: int| 0 <= k < r0.len() implies r@[k] == r0[k] by {}
                            assert(r@.take(r_start.len() as int) =~= r0.take(r_start.len() as int));
                            if r0.len() > 0 {
                                let last = r0.len() - 1;
                                assert(r@[last] == r0[last]);
                                if last >= r_start.len() {
                                    assert(r0[last].book == b && r0[last].chapter < c);
                                } else {
                                    assert(r0.take(r_start.len() as int)[last] == r0[last]);
                                    assert(r_start[last].book < b);
                                }
                            }
                        }
                    }
                    proof {
                        assert forall|bb: int, cc: int|
                            0 <= bb < b && #[trigger] readable_chapter(*library, bb, cc)
                                implies r@.contains(Chapter { book: bb as usize, chapter: cc as usize }) by {
                            let w = choose|w: int| 0 <= w < r0.len() && r0[w] == Chapter { book: bb as usize, chapter: cc as usize };
                            assert(r@[w] == r0[w]);
                        }
                        assert forall|cc: int|
                            0 <= cc < c + 1 && #[trigger] readable_chapter(*library, b as int, cc)
                                implies r@.contains(Chapter { book: b, chapter: cc as usize }) by {
                            if cc < c {
                                let w = choose|w: int| 0 <= w < r0.len() && r0[w] == Chapter { book: b, chapter: cc as usize };
                                assert(r@[w] == r0[w]);
                            } else {
                                assert(r@[r@.len() - 1] == Chapter { book: b, chapter: cc as usize });
                            }
                        }
                    }
                    c = c + 1;
                }
                proof {
                    assert forall|bb: int, cc: int|
                        0 <= bb < b + 1 && #[trigger] readable_chapter(*library, bb, cc)
                            implies r@.contains(Chapter { book: bb as usize, chapter: cc as usize }) by {
                        if bb == b {
                            assert(0 <= cc < cs@.len());
                        }
                    }
                }
            },
            None => {
                proof {
                    assert forall|bb: int, cc: int|
                        0 <= bb < b + 1 && #[trigger] readable_chapter(*library, bb, cc)
                            implies r@.contains(Chapter { book: bb as usize, chapter: cc as usize }) by {
                        if bb == b {
                            assert(chapters_of(books@[b as int]) == Seq::<JsonValue>::empty());
                        }
                    }
                }
            },
        }
        b = b + 1;
    }
    r
}

/// The keys under which a library event records where it came from.
pub open spec fn annotation_keys() -> Seq<Seq<char>> {
    seq!["_eventually_book_title"@, "_eventually_chapter_id"@, "_eventually_chapter_title"@]
}

/// The entries `xs` without those whose key is among `ks`.
pub open spec fn without_keys(xs: Seq<(String, JsonValue)>, ks: Seq<Seq<char>>) -> Seq<(String, JsonValue)>
    decreases xs.len(),
{
    if xs.len() == 0 {
        seq![]
    } else if ks.contains(xs.last().0@) {
        without_keys(xs.drop_last(), ks)
    } else {
        without_keys(xs.drop_last(), ks).push(xs.last())
    }
}

/// Entry `i` is the first entry of `e` with key `k`.
pub open spec fn first_with_key(e: Seq<(String, JsonValue)>, k: Seq<char>, i: int) -> bool {
    &&& 0 <= i < e.len()
    &&& e[i].0@ == k
    &&& forall|j: int| 0 <= j < i ==> (#[trigger] e[j]).0@ != k
}

/// `out` is the metadata value `m` with the entries `new` written into it: its other entries in
/// their order, then `new`.
pub open spec fn put_into(m: JsonValue, new: Seq<(String, JsonValue)>, out: JsonValue) -> bool {
    &&& out is Object
    &&& out->Object_0@ == without_keys(
        entries_or_empty(m),
        new.map_values(|x: (String, JsonValue)| x.0@),
    ) + new
}

/// `out` is the event `e` with `new` written into its (first) `metadata` object, which is
/// added at the end where the event has none.
pub open spec fn put_into_metadata(
    e: Seq<(String, JsonValue)>,
    new: Seq<(String, JsonValue)>,
    out: Seq<(String, JsonValue)>,
) -> bool {
    if exists|i: int| first_with_key(e, metadata_key(), i) {
        forall|i: int|
            first_with_key(e, metadata_key(), i) ==> {
                &&& out.len() == e.len()
                &&& forall|j: int| 0 <= j < e.len() && j != i ==> #[trigger] out[j] == e[j]
                &&& out[i].0@ == metadata_key()
                &&& put_into(e[i].1, new, out[i].1)
            }
    } else {
        &&& out.len() == e.len() + 1
        &&& out.take(e.len() as int) == e
        &&& out[e.len() as int].0@ == metadata_key()
        &&& put_into(JsonValue::Null, new, out[e.len() as int].1)
    }
}

fn has_key(new: &Vec<(String, JsonValue)>, k: &str) -> (r: bool)
    ensures
        r == new@.map_values(|x: (String, JsonValue)| x.0@).contains(k@),
{
    let ghost ks = new@.map_values(|x: (String, JsonValue)| x.0@);
    let mut i: usize = 0;
    while i < new.len()
        invariant
            i <= new@.len(),
            ks == new@.map_values(|x: (String, JsonValue)| x.0@),
            forall|j: int| 0 <= j < i ==> ks[j] != k@,
        decreases new@.len() - i,
    {
        if str_eq(new[i].0.as_str(), k) {
            assert(ks[i as int] == k@);
            return true;
        }
        i = i + 1;
    }
    false
}

/// Writes the entries `new` into a metadata value (an object or null).
fn put_entries(m: JsonValue, new: Vec<(String, JsonValue)>) -> (r: JsonValue)
    requires
        m is Null || m is Object,
    ensures
        put_into(m, new@, r),
{
    let ghost xs = entries_or_empty(m);
    let ghost ks = new@.map_values(|x: (String, JsonValue)| x.0@);
    let mut rest: Vec<(String, JsonValue)> = match m {
        JsonValue::Object(e) => e,
        _ => Vec::new(),
    };
    let mut out: Vec<(String, JsonValue)> = Vec::new();
    let ghost mut n: int = 0;
    proof {
        assert(xs.subrange(0, xs.len() as int) =~= xs);
        assert(xs.take(0) =~= seq![]);
    }
    while rest.len() > 0
        invariant
            0 <= n <= xs.len(),
            rest@ == xs.subrange(n, xs.len() as int),
            out@ == without_keys(xs.take(n), ks),
            ks == new@.map_values(|x: (String, JsonValue)| x.0@),
        decreases rest@.len(),
    {
        let entry = rest.remove(0);
        proof {
            assert(xs.take(n + 1).drop_last() =~= xs.take(n));
            assert(xs.take(n + 1).last() == entry);
        }
        if !has_key(&new, entry.0.as_str()) {
            out.push(entry);
        }
        proof {
            n = n + 1;
            assert(rest@ =~= xs.subrange(n, xs.len() as int));
        }
    }
    proof {
        assert(xs.take(xs.len() as int) =~= xs);
    }
    let mut new = new;
    out.append(&mut new);
    JsonValue::Object(out)
}

/// The first `metadata` entry of `e`, if any, holds an object or null.
pub open spec fn metadata_writable(e: Seq<(String, JsonValue)>) -> bool {
    forall|i: int|
        #![trigger e[i]]
        first_with_key(e, metadata_key(), i) ==> (e[i].1 is Null || e[i].1 is Object)
}

/// Writes the entries `new` into the metadata object of `event`, creating it where there is
/// none; nothing where `event` is no object or its metadata is neither an object nor null.
pub fn put_into_event_metadata(event: JsonValue, new: Vec<(String, JsonValue)>) -> (r: Option<JsonValue>)
    ensures
        match r {
            None => !(event is Object) || !metadata_writable(event->Object_0@),
            Some(out) => {
                &&& event is Object
                &&& metadata_writable(event->Object_0@)
                &&& out is Object
                &&& put_into_metadata(event->Object_0@, new@, out->Object_0@)
            },
        },
{
    let mut e = match event {
        JsonValue::Object(e) => e,
        _ => {
            return None;
        },
    };
    let ghost e0 = e@;
    match find_entry(&e, "metadata") {
        Some(i) => {
            let ok = match &e[i].1 {
                JsonValue::Null => true,
                JsonValue::Object(_) => true,
                _ => false,
            };
            if !ok {
                proof {
                    assert(first_with_key(e0, metadata_key(), i as int));
                }
                return None;
            }
            let (k, v) = e.remove(i);
            let ghost new0 = new@;
            let m = put_entries(v, new);
            e.insert(i, (k, m));
            proof {
                assert(first_with_key(e0, metadata_key(), i as int));
                assert forall|ii: int| first_with_key(e0, metadata_key(), ii) implies ii == i by {
                    if ii < i {
                        assert(e0[ii].0@ != metadata_key());
                    } else if ii > i {
                        assert(e0[i as int].0@ != metadata_key());
                    }
                }
                assert forall|j: int| 0 <= j < e0.len() && j != i implies #[trigger] e@[j] == e0[j] by {
                    if j < i {
                        assert(e@[j] == e0[j]);
                    } else {
                        assert(e@[j] == e0[j]);
                    }
                }
            }
            Some(JsonValue::Object(e))
        },
        None => {
            proof {
                lemma_lookup_none(e0, metadata_key());
            }
            let m = put_entries(JsonValue::Null, new);
            e.push(("metadata".to_owned(), m));
            proof {
                assert(e@.take(e0.len() as int) =~= e0);
            }
            Some(JsonValue::Object(e))
        },
    }
}

/// `out` is `event` annotated with where in the library it came from: the book's title, the
/// chapter's id and the chapter's title, copied into its metadata.
pub open spec fn annotated(event: JsonValue, library: JsonValue, ch: Chapter, out: JsonValue) -> bool {
    let book = items_of(library)[ch.book as int];
    let chapter = chapter_at(library, ch.book as int, ch.chapter as int);
    exists|new: Seq<(String, JsonValue)>|
        {
            &&& new.len() == 3
            &&& new.map_values(|x: (String, JsonValue)| x.0@) == annotation_keys()
            &&& identical(new[0].1, field(book, "title"@))
            &&& identical(new[1].1, field(chapter, "id"@))
            &&& identical(new[2].1, field(chapter, "title"@))
            &&& #[trigger] put_into_metadata(event->Object_0@, new, out->Object_0@)
        }
}

fn field_copy(v: &JsonValue, k: &str) -> (r: JsonValue)
    ensures
        identical(r, field(*v, k@)),
{
    match field_of(v, k) {
        Some(x) => duplicate(x),
        None => {
            let r = JsonValue::Null;
            proof {
                crate::json::lemma_contains_reflexive(r, crate::json::MaskLevel::Plain);
            }
            r
        },
    }
}

/// Annotates an event of chapter `ch` of the library listing with its book title, chapter id
/// and chapter title; nothing where `ch` is not in the listing or the event cannot take them.
pub fn annotate_library_event(event: JsonValue, library: &JsonValue, ch: Chapter) -> (r: Option<JsonValue>)
    ensures
        match r {
            None => {
                ||| !(0 <= ch.book < items_of(*library).len())
                ||| !(0 <= ch.chapter < chapters_of(items_of(*library)[ch.book as int]).len())
                ||| !(event is Object)
                ||| !metadata_writable(event->Object_0@)
            },
            Some(out) => {
                &&& 0 <= ch.book < items_of(*library).len()
                &&& 0 <= ch.chapter < chapters_of(items_of(*library)[ch.book as int]).len()
                &&& event is Object
                &&& out is Object
                &&& annotated(event, *library, ch, out)
            },
        },
{
    let book = match library {
        JsonValue::Array(x) => if ch.book < x.len() {
            &x[ch.book]
        } else {
            return None;
        },
        _ => {
            return None;
        },
    };
    let chapter = match items_ref(field_of(book, "chapters")) {
        Some(cs) => if ch.chapter < cs.len() {
            &cs[ch.chapter]
        } else {
            return None;
        },
        None => {
            return None;
        },
    };
    let mut new: Vec<(String, JsonValue)> = Vec::new();
    new.push(("_eventually_book_title".to_owned(), field_copy(book, "title")));
    new.push(("_eventually_chapter_id".to_owned(), field_copy(chapter, "id")));
    new.push(("_eventually_chapter_title".to_owned(), field_copy(chapter, "title")));
    let ghost new0 = new@;
    proof {
        assert(new0.map_values(|x: (String, JsonValue)| x.0@) =~= annotation_keys());
    }
    let r = put_into_event_metadata(event, new);
    proof {
        if r is Some {
            assert(put_into_metadata(event->Object_0@, new0, r->0->Object_0@));
        }
    }
    r
}

/// The id of chapter `ch` of the library listing, as the feed is asked for it.
pub fn chapter_id(library: &JsonValue, ch: Chapter) -> (r: Option<String>)
    ensures
        match r {
            Some(s) => {
                &&& 0 <= ch.book < items_of(*library).len()
                &&& 0 <= ch.chapter < chapters_of(items_of(*library)[ch.book as int]).len()
                &&& field(chapter_at(*library, ch.book as int, ch.chapter as int), "id"@) == JsonValue::Text(s)
            },
            None => !(0 <= ch.book < items_of(*library).len()) || !(0 <= ch.chapter < chapters_of(
                items_of(*library)[ch.book as int],
            ).len()) || !(field(chapter_at(*library, ch.book as int, ch.chapter as int), "id"@) is Text),
        },
{
    let book = match library {
        JsonValue::Array(x) => if ch.book < x.len() {
            &x[ch.book]
        } else {
            return None;
        },
        _ => {
            return None;
        },
    };
    match items_ref(field_of(book, "chapters")) {
        Some(cs) => if ch.chapter < cs.len() {
            match field_of(&cs[ch.chapter], "id") {
                Some(JsonValue::Text(s)) => Some(s.clone()),
                _ => None,
            }
        } else {
            None
        },
        None => None,
    }
}

} // verus!
