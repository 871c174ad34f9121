use vstd::prelude::*;
use crate::text::str_eq;

verus! {

/// A dynamically typed document value: the open-ended tree that event bodies are made of.
///
/// Integral numbers are held as `Number`; any other number keeps its decimal text in `Decimal`.
/// An object keeps its entries in the order they arrived.
#[derive(Debug)]
pub enum JsonValue {
    Null,
    Bool(bool),
    Number(i64),
    Decimal(String),
    Text(String),
    Array(Vec<JsonValue>),
    Object(Vec<(String, JsonValue)>),
}

/// Where in a document a comparison stands, which decides the keys it ignores.
#[derive(Debug, Clone, Copy, PartialEq, Eq, Structural)]
pub enum MaskLevel {
    /// The top level of a document body.
    Top,
    /// Inside the body's `metadata` object.
    Metadata,
    /// Anywhere else: nothing is ignored.
    Plain,
}

pub open spec fn nuts_key() -> Seq<char> {
    "nuts"@
}

pub open spec fn origination_key() -> Seq<char> {
    "created"@
}

pub open spec fn metadata_key() -> Seq<char> {
    "metadata"@
}

pub open spec fn scales_key() -> Seq<char> {
    "scales"@
}

pub open spec fn ingest_time_key() -> Seq<char> {
    "_eventually_ingest_time"@
}

pub open spec fn ingest_source_key() -> Seq<char> {
    "_eventually_ingest_source"@
}

/// The keys ignored when deciding whether a document changed: the volatile subfields (the
/// popularity counter, the redaction scores, the provenance stamps) and the origination
/// instant, which is the document's own field rather than part of its body.
pub open spec fn is_volatile(k: Seq<char>, level: MaskLevel) -> bool {
    match level {
        MaskLevel::Top => k == nuts_key() || k == origination_key(),
        MaskLevel::Metadata => k == scales_key() || k == ingest_time_key() || k == ingest_source_key(),
        MaskLevel::Plain => false,
    }
}

pub open spec fn child_level(k: Seq<char>, level: MaskLevel) -> MaskLevel {
    if level == MaskLevel::Top && k == metadata_key() {
        MaskLevel::Metadata
    } else {
        MaskLevel::Plain
    }
}

/// Structural containment with the volatile keys of `level` removed from both sides:
/// every non-volatile entry of `b` has an entry of the same key in `a` that contains it,
/// arrays agree position by position, and scalars are equal.
pub open spec fn contains_at(a: JsonValue, b: JsonValue, level: MaskLevel) -> bool
    decreases b,
{
    match b {
        JsonValue::Null => a is Null,
        JsonValue::Bool(y) => a is Bool && a->Bool_0 == y,
        JsonValue::Number(y) => a is Number && a->Number_0 == y,
        JsonValue::Decimal(y) => a is Decimal && a->Decimal_0@ == y@,
        JsonValue::Text(y) => a is Text && a->Text_0@ == y@,
        JsonValue::Array(xb) => match a {
            JsonValue::Array(xa) => xa@.len() == xb@.len() && forall|i: int|
                #![trigger xb@[i]]
                0 <= i < xb@.len() ==> contains_at(xa@[i], xb@[i], MaskLevel::Plain),
            _ => false,
        },
        JsonValue::Object(eb) => match a {
            JsonValue::Object(ea) => forall|j: int|
                #![trigger eb@[j]]
                0 <= j < eb@.len() && !is_volatile(eb@[j].0@, level) ==> exists|i: int|
                    #![trigger ea@[i]]
                    0 <= i < ea@.len() && ea@[i].0@ == eb@[j].0@ && contains_at(
                        ea@[i].1,
                        eb@[j].1,
                        child_level(eb@[j].0@, level),
                    ),
            _ => false,
        },
    }
}

proof fn lemma_array_item_decreases(v: JsonValue, i: int)
    requires
        v is Array,
        0 <= i < v->Array_0@.len(),
    ensures
        decreases_to!(v => v->Array_0@[i]),
{
    let x = v->Array_0;
    assert(decreases_to!(v => x));
    assert(decreases_to!(x => x@));
    assert(decreases_to!(x@ => x@[i]));
}

proof fn lemma_entry_value_decreases(v: JsonValue, j: int)
    requires
        v is Object,
        0 <= j < v->Object_0@.len(),
    ensures
        decreases_to!(v => v->Object_0@[j].1),
{
    let e = v->Object_0;
    assert(decreases_to!(v => e));
    assert(decreases_to!(e => e@));
    assert(decreases_to!(e@ => e@[j]));
    assert(decreases_to!(e@[j] => e@[j].1));
}

/// Containment is reflexive at every level.
pub proof fn lemma_contains_reflexive(v: JsonValue, level: MaskLevel)
    ensures
        contains_at(v, v, level),
    decreases v,
{
    match v {
        JsonValue::Array(x) => {
            assert forall|i: int|
                #![trigger x@[i]]
                0 <= i < x@.len() implies contains_at(x@[i], x@[i], MaskLevel::Plain) by {
                lemma_array_item_decreases(v, i);
                lemma_contains_reflexive(x@[i], MaskLevel::Plain);
            }
        },
        JsonValue::Object(e) => {
            assert forall|j: int|
                #![trigger e@[j]]
                0 <= j < e@.len() && !is_volatile(e@[j].0@, level) implies exists|i: int|
                    #![trigger e@[i]]
                    0 <= i < e@.len() && e@[i].0@ == e@[j].0@ && contains_at(
                        e@[i].1,
                        e@[j].1,
                        child_level(e@[j].0@, level),
                    ) by {
                lemma_entry_value_decreases(v, j);
                lemma_contains_reflexive(e@[j].1, child_level(e@[j].0@, level));
            }
        },
        _ => {},
    }
}

/// Containment with nothing ignored implies containment at every level.
pub proof fn lemma_plain_contains_any_level(a: JsonValue, b: JsonValue, level: MaskLevel)
    requires
        contains_at(a, b, MaskLevel::Plain),
    ensures
        contains_at(a, b, level),
    decreases b,
{
    match b {
        JsonValue::Object(eb) => {
            let ea = a->Object_0;
            assert forall|j: int|
                #![trigger eb@[j]]
                0 <= j < eb@.len() && !is_volatile(eb@[j].0@, level) implies exists|i: int|
                    #![trigger ea@[i]]
                    0 <= i < ea@.len() && ea@[i].0@ == eb@[j].0@ && contains_at(
                        ea@[i].1,
                        eb@[j].1,
                        child_level(eb@[j].0@, level),
                    ) by {
                assert(!is_volatile(eb@[j].0@, MaskLevel::Plain));
                let i = choose|i: int|
                    #![trigger ea@[i]]
                    0 <= i < ea@.len() && ea@[i].0@ == eb@[j].0@ && contains_at(
                        ea@[i].1,
                        eb@[j].1,
                        child_level(eb@[j].0@, MaskLevel::Plain),
                    );
                lemma_entry_value_decreases(b, j);
                lemma_plain_contains_any_level(ea@[i].1, eb@[j].1, child_level(eb@[j].0@, level));
            }
        },
        _ => {},
    }
}

/// Whether `k` is a volatile key at `level`.
pub fn volatile_key(k: &str, level: MaskLevel) -> (r: bool)
    ensures
        r == is_volatile(k@, level),
{
    match level {
        MaskLevel::Top => str_eq(k, "nuts") || str_eq(k, "created"),
        MaskLevel::Metadata => str_eq(k, "scales") || str_eq(k, "_eventually_ingest_time")
            || str_eq(k, "_eventually_ingest_source"),
        MaskLevel::Plain => false,
    }
}

/// The level at which the value under key `k` is compared.
pub fn key_child_level(k: &str, level: MaskLevel) -> (r: MaskLevel)
    ensures
        r == child_level(k@, level),
{
    if level == MaskLevel::Top && str_eq(k, "metadata") {
        MaskLevel::Metadata
    } else {
        MaskLevel::Plain
    }
}

/// Two values are the same tree, up to the order of object keys.
pub open spec fn identical(a: JsonValue, b: JsonValue) -> bool {
    contains_at(a, b, MaskLevel::Plain) && contains_at(b, a, MaskLevel::Plain)
}

proof fn lemma_identical_items(a: JsonValue, b: JsonValue)
    requires
        a is Array,
        b is Array,
        a->Array_0@.len() == b->Array_0@.len(),
        forall|k: int|
            #![trigger a->Array_0@[k]]
            0 <= k < a->Array_0@.len() ==> identical(a->Array_0@[k], b->Array_0@[k]),
    ensures
        identical(a, b),
{
    let x = a->Array_0@;
    let y = b->Array_0@;
    assert forall|k: int| #![trigger y[k]] 0 <= k < y.len() implies contains_at(x[k], y[k], MaskLevel::Plain) by {
        assert(identical(x[k], y[k]));
    }
    assert forall|k: int| #![trigger x[k]] 0 <= k < x.len() implies contains_at(y[k], x[k], MaskLevel::Plain) by {
        assert(identical(x[k], y[k]));
    }
}

proof fn lemma_identical_entries(a: JsonValue, b: JsonValue)
    requires
        a is Object,
        b is Object,
        a->Object_0@.len() == b->Object_0@.len(),
        forall|k: int|
            #![trigger a->Object_0@[k]]
            0 <= k < a->Object_0@.len() ==> a->Object_0@[k].0@ == b->Object_0@[k].0@ && identical(
                a->Object_0@[k].1,
                b->Object_0@[k].1,
            ),
    ensures
        identical(a, b),
{
    let x = a->Object_0@;
    let y = b->Object_0@;
    assert forall|j: int|
        #![trigger y[j]]
        0 <= j < y.len() && !is_volatile(y[j].0@, MaskLevel::Plain) implies exists|k: int|
            #![trigger x[k]]
            0 <= k < x.len() && x[k].0@ == y[j].0@ && contains_at(
                x[k].1,
                y[j].1,
                child_level(y[j].0@, MaskLevel::Plain),
            ) by {
        assert(x[j].0@ == y[j].0@ && identical(x[j].1, y[j].1));
    }
    assert forall|j: int|
        #![trigger x[j]]
        0 <= j < x.len() && !is_volatile(x[j].0@, MaskLevel::Plain) implies exists|k: int|
            #![trigger y[k]]
            0 <= k < y.len() && y[k].0@ == x[j].0@ && contains_at(
                y[k].1,
                x[j].1,
                child_level(x[j].0@, MaskLevel::Plain),
            ) by {
        assert(x[j].0@ == y[j].0@ && identical(x[j].1, y[j].1));
    }
}

fn duplicate_items(v: &JsonValue) -> (r: Vec<JsonValue>)
    requires
        v is Array,
    ensures
        r@.len() == v->Array_0@.len(),
        forall|k: int|
            #![trigger r@[k]]
            0 <= k < r@.len() ==> identical(r@[k], v->Array_0@[k]),
    decreases v, 0nat,
{
    let x = match v {
        JsonValue::Array(x) => x,
        _ => {
            return Vec::new();
        },
    };
    let mut out: Vec<JsonValue> = Vec::new();
    let mut i: usize = 0;
    while i < x.len()
        invariant
            i <= x@.len(),
            out@.len() == i,
            *v is Array && (*v)->Array_0 == *x,
            forall|k: int|
                #![trigger out@[k]]
                0 <= k < i ==> identical(out@[k], x@[k]),
        decreases x@.len() - i,
    {
        proof {
            lemma_array_item_decreases(*v, i as int);
        }
        let item = duplicate(&x[i]);
        out.push(item);
        proof {
            assert(out@[i as int] == item);
        }
        i = i + 1;
    }
    out
}

fn duplicate_entries(v: &JsonValue) -> (r: Vec<(String, JsonValue)>)
    requires
        v is Object,
    ensures
        r@.len() == v->Object_0@.len(),
        forall|k: int|
            #![trigger r@[k]]
            0 <= k < r@.len() ==> r@[k].0@ == v->Object_0@[k].0@ && identical(
                r@[k].1,
                v->Object_0@[k].1,
            ),
    decreases v, 0nat,
{
    let e = match v {
        JsonValue::Object(e) => e,
        _ => {
            return Vec::new();
        },
    };
    let mut out: Vec<(String, JsonValue)> = Vec::new();
    let mut i: usize = 0;
    while i < e.len()
        invariant
            i <= e@.len(),
            out@.len() == i,
            *v is Object && (*v)->Object_0 == *e,
            forall|k: int|
                #![trigger out@[k]]
                0 <= k < i ==> out@[k].0@ == e@[k].0@ && identical(out@[k].1, e@[k].1),
        decreases e@.len() - i,
    {
        proof {
            lemma_entry_value_decreases(*v, i as int);
        }
        let value = duplicate(&e[i].1);
        let key = e[i].0.clone();
        out.push((key, value));
        proof {
            assert(out@[i as int] == (key, value));
        }
        i = i + 1;
    }
    out
}

/// A copy of `v` with the same content.
pub fn duplicate(v: &JsonValue) -> (r: JsonValue)
    ensures
        identical(r, *v),
    decreases v, 1nat,
{
    match v {
        JsonValue::Null => JsonValue::Null,
        JsonValue::Bool(b) => JsonValue::Bool(*b),
        JsonValue::Number(n) => JsonValue::Number(*n),
        JsonValue::Decimal(s) => JsonValue::Decimal(s.clone()),
        JsonValue::Text(s) => JsonValue::Text(s.clone()),
        JsonValue::Array(_) => {
            let r = JsonValue::Array(duplicate_items(v));
            proof {
                lemma_identical_items(r, *v);
            }
            r
        },
        JsonValue::Object(_) => {
            let r = JsonValue::Object(duplicate_entries(v));
            proof {
                lemma_identical_entries(r, *v);
            }
            r
        },
    }
}

/// Masked structural containment of `b` in `a`.
pub fn contains(a: &JsonValue, b: &JsonValue, level: MaskLevel) -> (r: bool)
    ensures
        r == contains_at(*a, *b, level),
    decreases b,
{
    match b {
        JsonValue::Null => match a {
            JsonValue::Null => true,
            _ => false,
        },
        JsonValue::Bool(y) => match a {
            JsonValue::Bool(x) => *x == *y,
            _ => false,
        },
        JsonValue::Number(y) => match a {
            JsonValue::Number(x) => *x == *y,
            _ => false,
        },
        JsonValue::Decimal(y) => match a {
            JsonValue::Decimal(x) => str_eq(x.as_str(), y.as_str()),
            _ => false,
        },
        JsonValue::Text(y) => match a {
            JsonValue::Text(x) => str_eq(x.as_str(), y.as_str()),
            _ => false,
        },
        JsonValue::Array(xb) => match a {
            JsonValue::Array(xa) => {
                if xa.len() != xb.len() {
                    return false;
                }
                let mut i: usize = 0;
                while i < xb.len()
                    invariant
                        i <= xb@.len(),
                        xa@.len() == xb@.len(),
                        *a is Array && (*a)->Array_0 == *xa,
                        *b is Array && (*b)->Array_0 == *xb,
                        forall|k: int|
                            #![trigger xb@[k]]
                            0 <= k < i ==> contains_at(xa@[k], xb@[k], MaskLevel::Plain),
                    decreases xb@.len() - i,
                {
                    proof {
                        lemma_array_item_decreases(*b, i as int);
                    }
                    if !contains(&xa[i], &xb[i], MaskLevel::Plain) {
                        return false;
                    }
                    i = i + 1;
                }
                true
            },
            _ => false,
        },
        JsonValue::Object(eb) => match a {
            JsonValue::Object(ea) => {
                let mut j: usize = 0;
                while j < eb.len()
                    invariant
                        j <= eb@.len(),
                        *a is Object && (*a)->Object_0 == *ea,
                        *b is Object && (*b)->Object_0 == *eb,
                        forall|jj: int|
                            #![trigger eb@[jj]]
                            0 <= jj < j && !is_volatile(eb@[jj].0@, level) ==> exists|i: int|
                                #![trigger ea@[i]]
                                0 <= i < ea@.len() && ea@[i].0@ == eb@[jj].0@ && contains_at(
                                    ea@[i].1,
                                    eb@[jj].1,
                                    child_level(eb@[jj].0@, level),
                                ),
                    decreases eb@.len() - j,
                {
                    let key = eb[j].0.as_str();
                    if !volatile_key(key, level) {
                        let sub = key_child_level(key, level);
                        proof {
                            lemma_entry_value_decreases(*b, j as int);
                        }
                        let mut found = false;
                        let mut i: usize = 0;
                        while i < ea.len() && !found
                            invariant
                                i <= ea@.len(),
                                j < eb@.len(),
                                *a is Object && (*a)->Object_0 == *ea,
                                *b is Object && (*b)->Object_0 == *eb,
                                key@ == eb@[j as int].0@,
                                sub == child_level(key@, level),
                                found ==> exists|ii: int|
                                    #![trigger ea@[ii]]
                                    0 <= ii < ea@.len() && ea@[ii].0@ == key@ && contains_at(
                                        ea@[ii].1,
                                        eb@[j as int].1,
                                        sub,
                                    ),
                                !found ==> forall|ii: int|
                                    #![trigger ea@[ii]]
                                    0 <= ii < i ==> !(ea@[ii].0@ == key@ && contains_at(
                                        ea@[ii].1,
                                        eb@[j as int].1,
                                        sub,
                                    )),
                            decreases ea@.len() - i,
                        {
                            if str_eq(ea[i].0.as_str(), key) && contains(&ea[i].1, &eb[j].1, sub) {
                                found = true;
                            }
                            i = i + 1;
                        }
                        if !found {
                            return false;
                        }
                    }
                    j = j + 1;
                }
                true
            },
            _ => false,
        },
    }
}

} // verus!
