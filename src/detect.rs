use vstd::prelude::*;
use crate::document::{
    Document, created_key, entries_or_empty, stamped_body, stamped_entry, stamped_metadata,
    without_stamps,
};
use crate::json::{
    JsonValue, MaskLevel, child_level, contains, contains_at, is_volatile, lemma_contains_reflexive,
    metadata_key,
};

verus! {

/// Masked equality of two bodies: each contains the other once the volatile keys are removed.
pub open spec fn same_content(a: JsonValue, b: JsonValue) -> bool {
    contains_at(a, b, MaskLevel::Top) && contains_at(b, a, MaskLevel::Top)
}

/// A candidate is a meaningful change when there is no previous document, or when its body
/// differs from the previous one outside the volatile keys.
pub open spec fn meaningful(previous: Option<Document>, candidate: Document) -> bool {
    match previous {
        None => true,
        Some(p) => !same_content(p.body, candidate.body),
    }
}

/// Decides whether `candidate` differs meaningfully from the stored `previous` document.
pub fn is_meaningful_change(previous: Option<&Document>, candidate: &Document) -> (r: bool)
    ensures
        r == match previous {
            Some(p) => meaningful(Some(*p), *candidate),
            None => meaningful(None, *candidate),
        },
{
    match previous {
        None => true,
        Some(p) => !(contains(&p.body, &candidate.body, MaskLevel::Top) && contains(
            &candidate.body,
            &p.body,
            MaskLevel::Top,
        )),
    }
}

/// No two entries of an object share a key.
pub open spec fn keys_unique(e: Seq<(String, JsonValue)>) -> bool {
    forall|i: int, j: int|
        #![trigger e[i], e[j]]
        0 <= i < e.len() && 0 <= j < e.len() && e[i].0@ == e[j].0@ ==> i == j
}

/// `a` and `b` are the same tree, entry for entry, except in the values of volatile keys.
pub open spec fn agree_except_volatile(a: JsonValue, b: JsonValue, level: MaskLevel) -> bool
    decreases a,
{
    match a {
        JsonValue::Object(ea) => {
            &&& b is Object
            &&& ea@.len() == b->Object_0@.len()
            &&& forall|i: int|
                #![trigger ea@[i]]
                0 <= i < ea@.len() ==> {
                    &&& b->Object_0@[i].0@ == ea@[i].0@
                    &&& (is_volatile(ea@[i].0@, level) || agree_except_volatile(
                        ea@[i].1,
                        b->Object_0@[i].1,
                        child_level(ea@[i].0@, level),
                    ))
                }
        },
        _ => a == b,
    }
}

proof fn lemma_agree_contains(a: JsonValue, b: JsonValue, level: MaskLevel)
    requires
        agree_except_volatile(a, b, level),
    ensures
        contains_at(a, b, level),
        contains_at(b, a, level),
    decreases a,
{
    match a {
        JsonValue::Object(ea) => {
            let eb = b->Object_0;
            assert forall|i: int|
                #![trigger ea@[i]]
                0 <= i < ea@.len() && !is_volatile(ea@[i].0@, level) implies contains_at(
                    ea@[i].1,
                    eb@[i].1,
                    child_level(ea@[i].0@, level),
                ) && contains_at(eb@[i].1, ea@[i].1, child_level(ea@[i].0@, level)) by {
                assert(decreases_to!(a => ea));
                assert(decreases_to!(ea => ea@));
                assert(decreases_to!(ea@ => ea@[i]));
                assert(decreases_to!(ea@[i] => ea@[i].1));
                lemma_agree_contains(ea@[i].1, eb@[i].1, child_level(ea@[i].0@, level));
            }
            assert forall|j: int|
                #![trigger eb@[j]]
                0 <= j < eb@.len() && !is_volatile(eb@[j].0@, level) implies exists|i: int|
                    #![trigger ea@[i]]
                    0 <= i < ea@.len() && ea@[i].0@ == eb@[j].0@ && contains_at(
                        ea@[i].1,
                        eb@[j].1,
                        child_level(eb@[j].0@, level),
                    ) by {
                assert(ea@[j].0@ == eb@[j].0@);
            }
            assert forall|j: int|
                #![trigger ea@[j]]
                0 <= j < ea@.len() && !is_volatile(ea@[j].0@, level) implies exists|i: int|
                    #![trigger eb@[i]]
                    0 <= i < eb@.len() && eb@[i].0@ == ea@[j].0@ && contains_at(
                        eb@[i].1,
                        ea@[j].1,
                        child_level(ea@[j].0@, level),
                    ) by {
                assert(eb@[j].0@ == ea@[j].0@);
            }
        },
        _ => {
            lemma_contains_reflexive(a, level);
        },
    }
}

/// Two documents whose bodies differ only in the values of volatile keys are no meaningful
/// change of one another.
pub proof fn lemma_volatile_difference_is_not_meaningful(previous: Document, candidate: Document)
    requires
        agree_except_volatile(previous.body, candidate.body, MaskLevel::Top),
    ensures
        !meaningful(Some(previous), candidate),
{
    lemma_agree_contains(previous.body, candidate.body, MaskLevel::Top);
}

/// A document whose body has a non-volatile top-level key that the previous body lacks, or
/// lacks one that the previous body has, is a meaningful change.
pub proof fn lemma_added_or_removed_key_is_meaningful(
    previous: Document,
    candidate: Document,
    k: Seq<char>,
)
    requires
        previous.body is Object,
        candidate.body is Object,
        !is_volatile(k, MaskLevel::Top),
        (exists|j: int|
            0 <= j < candidate.body->Object_0@.len() && #[trigger] candidate.body->Object_0@[j].0@
                == k) != (exists|j: int|
            0 <= j < previous.body->Object_0@.len() && #[trigger] previous.body->Object_0@[j].0@
                == k),
    ensures
        meaningful(Some(previous), candidate),
{
}

/// A document whose body holds, under a non-volatile top-level key, a value that differs from
/// the previous body's value there (with volatile keys ignored) is a meaningful change.
pub proof fn lemma_changed_field_is_meaningful(
    previous: Document,
    candidate: Document,
    i: int,
    j: int,
)
    requires
        previous.body is Object,
        candidate.body is Object,
        keys_unique(previous.body->Object_0@),
        keys_unique(candidate.body->Object_0@),
        0 <= i < previous.body->Object_0@.len(),
        0 <= j < candidate.body->Object_0@.len(),
        previous.body->Object_0@[i].0@ == candidate.body->Object_0@[j].0@,
        !is_volatile(previous.body->Object_0@[i].0@, MaskLevel::Top),
        !contains_at(
            previous.body->Object_0@[i].1,
            candidate.body->Object_0@[j].1,
            child_level(previous.body->Object_0@[i].0@, MaskLevel::Top),
        ) || !contains_at(
            candidate.body->Object_0@[j].1,
            previous.body->Object_0@[i].1,
            child_level(previous.body->Object_0@[i].0@, MaskLevel::Top),
        ),
    ensures
        meaningful(Some(previous), candidate),
{
    let ep = previous.body->Object_0@;
    let ec = candidate.body->Object_0@;
    let lvl = child_level(ep[i].0@, MaskLevel::Top);
    if contains_at(previous.body, candidate.body, MaskLevel::Top) && contains_at(
        candidate.body,
        previous.body,
        MaskLevel::Top,
    ) {
        assert(ec[j] == ec[j]);
        let ii = choose|ii: int|
            #![trigger ep[ii]]
            0 <= ii < ep.len() && ep[ii].0@ == ec[j].0@ && contains_at(ep[ii].1, ec[j].1, lvl);
        assert(ep[ii] == ep[ii] && ep[i] == ep[i]);
        assert(ii == i);
        assert(ep[i] == ep[i]);
        let jj = choose|jj: int|
            #![trigger ec[jj]]
            0 <= jj < ec.len() && ec[jj].0@ == ep[i].0@ && contains_at(ec[jj].1, ep[i].1, lvl);
        assert(ec[jj] == ec[jj] && ec[j] == ec[j]);
        assert(jj == j);
    }
}

proof fn lemma_restamped_metadata(
    m: JsonValue,
    y1: JsonValue,
    y2: JsonValue,
    s1: Seq<char>,
    n1: i64,
    s2: Seq<char>,
    n2: i64,
)
    requires
        stamped_metadata(m, y1, s1, n1),
        stamped_metadata(m, y2, s2, n2),
    ensures
        contains_at(y1, y2, MaskLevel::Metadata),
{
    let kept = without_stamps(entries_or_empty(m));
    let e1 = y1->Object_0@;
    let e2 = y2->Object_0@;
    assert forall|j: int|
        #![trigger e2[j]]
        0 <= j < e2.len() && !is_volatile(e2[j].0@, MaskLevel::Metadata) implies exists|i: int|
            #![trigger e1[i]]
            0 <= i < e1.len() && e1[i].0@ == e2[j].0@ && contains_at(
                e1[i].1,
                e2[j].1,
                child_level(e2[j].0@, MaskLevel::Metadata),
            ) by {
        assert(j < kept.len());
        assert(e1.take(kept.len() as int)[j] == e1[j]);
        assert(e2.take(kept.len() as int)[j] == e2[j]);
        lemma_contains_reflexive(e2[j].1, child_level(e2[j].0@, MaskLevel::Metadata));
        assert(e1[j] == e2[j]);
    }
}

proof fn lemma_restamped_contains(
    raw: Seq<(String, JsonValue)>,
    b1: JsonValue,
    b2: JsonValue,
    created: i64,
    s1: Seq<char>,
    n1: i64,
    s2: Seq<char>,
    n2: i64,
)
    requires
        stamped_body(raw, b1, created, s1, n1),
        stamped_body(raw, b2, created, s2, n2),
    ensures
        contains_at(b1, b2, MaskLevel::Top),
{
    let e1 = b1->Object_0@;
    let e2 = b2->Object_0@;
    assert forall|j: int|
        #![trigger e2[j]]
        0 <= j < e2.len() && !is_volatile(e2[j].0@, MaskLevel::Top) implies exists|i: int|
            #![trigger e1[i]]
            0 <= i < e1.len() && e1[i].0@ == e2[j].0@ && contains_at(
                e1[i].1,
                e2[j].1,
                child_level(e2[j].0@, MaskLevel::Top),
            ) by {
        if j < raw.len() {
            assert(stamped_entry(raw[j], e1[j], created, s1, n1));
            assert(stamped_entry(raw[j], e2[j], created, s2, n2));
            if raw[j].0@ == created_key() {
                lemma_contains_reflexive(e2[j].1, child_level(e2[j].0@, MaskLevel::Top));
            } else if raw[j].0@ == metadata_key() {
                lemma_restamped_metadata(raw[j].1, e1[j].1, e2[j].1, s1, n1, s2, n2);
            } else {
                lemma_contains_reflexive(e2[j].1, child_level(e2[j].0@, MaskLevel::Top));
            }
        } else {
            lemma_restamped_metadata(JsonValue::Null, e1[j].1, e2[j].1, s1, n1, s2, n2);
        }
        assert(e1[j].0@ == e2[j].0@);
    }
}

/// The same raw document stored twice, from any sources and at any times, gives bodies with
/// the same content.
pub proof fn lemma_restamped_same_content(
    raw: Seq<(String, JsonValue)>,
    b1: JsonValue,
    b2: JsonValue,
    created: i64,
    s1: Seq<char>,
    n1: i64,
    s2: Seq<char>,
    n2: i64,
)
    requires
        stamped_body(raw, b1, created, s1, n1),
        stamped_body(raw, b2, created, s2, n2),
    ensures
        same_content(b1, b2),
{
    lemma_restamped_contains(raw, b1, b2, created, s1, n1, s2, n2);
    lemma_restamped_contains(raw, b2, b1, created, s2, n2, s1, n1);
}

} // verus!
