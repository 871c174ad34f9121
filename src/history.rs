//! Laws over runs of the store: what ingesting does across several calls.
use vstd::prelude::*;
use crate::detect::{lemma_restamped_same_content, meaningful, same_content};
use crate::document::{Document, id_of, malformation};
use crate::json::{JsonValue, MaskLevel, lemma_plain_contains_any_level};
use crate::store::{
    Outcome, StoreView, VersionRecord, canonical_form, ingested, is_repeat, latest_version, stored,
};

verus! {

/// The version records of document `id`, in order of archiving.
pub open spec fn versions_of(vs: Seq<VersionRecord>, id: u128) -> Seq<VersionRecord>
    decreases vs.len(),
{
    if vs.len() == 0 {
        seq![]
    } else if vs.last().doc_id == id {
        versions_of(vs.drop_last(), id).push(vs.last())
    } else {
        versions_of(vs.drop_last(), id)
    }
}

proof fn lemma_latest_is_last_of_versions(vs: Seq<VersionRecord>, id: u128)
    ensures
        latest_version(vs, id) == if versions_of(vs, id).len() == 0 {
            None
        } else {
            Some(versions_of(vs, id).last())
        },
    decreases vs.len(),
{
    if vs.len() > 0 {
        lemma_latest_is_last_of_versions(vs.drop_last(), id);
    }
}

/// Ingesting the same raw document twice in a row, from any sources and at any times: the
/// second ingestion archives nothing, emits nothing and adds no live document; the document
/// has its one live entry.
pub proof fn lemma_reingest_is_idempotent(
    s0: StoreView,
    raw: JsonValue,
    source1: Seq<char>,
    now1: i64,
    s1: StoreView,
    r1: Outcome,
    source2: Seq<char>,
    now2: i64,
    s2: StoreView,
    r2: Outcome,
)
    requires
        ingested(s0, raw, source1, now1, s1, r1),
        ingested(s1, raw, source2, now2, s2, r2),
    ensures
        s2.versions == s1.versions,
        s2.notifications == s1.notifications,
        s2.live.dom() == s1.live.dom(),
        malformation(raw) is None ==> {
            &&& r2 == Outcome::Unchanged
            &&& s2.live.contains_key(id_of(raw->Object_0@)->0)
        },
{
    if malformation(raw) is None {
        let d1 = choose|d: Document| canonical_form(raw, source1, now1, d) && #[trigger] stored(s0, d, now1, s1, r1);
        let d2 = choose|d: Document| canonical_form(raw, source2, now2, d) && #[trigger] stored(s1, d, now2, s2, r2);
        assert(s1.live.contains_key(d1.id) && s1.live[d1.id] == d1);
        lemma_restamped_same_content(
            raw->Object_0@,
            d1.body,
            d2.body,
            d1.created,
            source1,
            now1,
            source2,
            now2,
        );
        assert(s2.live.dom() =~= s1.live.dom());
    }
}

/// The history facts after the first `m` revisions of a run.
proof fn lemma_history_prefix(
    states: Seq<StoreView>,
    docs: Seq<Document>,
    times: Seq<i64>,
    outcomes: Seq<Outcome>,
    id: u128,
    m: int,
)
    requires
        docs.len() >= 1,
        states.len() == docs.len() + 1,
        times.len() == docs.len(),
        outcomes.len() == docs.len(),
        forall|k: int|
            0 <= k < docs.len() ==> #[trigger] stored(states[k], docs[k], times[k], states[k + 1], outcomes[k]),
        forall|k: int| 0 <= k < docs.len() ==> (#[trigger] docs[k]).id == id,
        !states[0].live.contains_key(id),
        versions_of(states[0].versions, id).len() == 0,
        forall|k: int|
            0 <= k < docs.len() - 1 ==> meaningful(Some(docs[k]), #[trigger] docs[k + 1]),
        1 <= m <= docs.len(),
    ensures
        states[m].live.contains_key(id),
        states[m].live[id] == docs[m - 1],
        versions_of(states[m].versions, id).len() == m - 1,
        forall|k: int|
            0 <= k < m - 1 ==> (#[trigger] versions_of(states[m].versions, id)[k]).snapshot
                == docs[k].body && versions_of(states[m].versions, id)[k].observed_at == times[k
                + 1],
    decreases m,
{
    let k = m - 1;
    assert(stored(states[k], docs[k], times[k], states[k + 1], outcomes[k]));
    assert(docs[k].id == id);
    if m == 1 {
        assert(states[1].versions == states[0].versions);
    } else {
        lemma_history_prefix(states, docs, times, outcomes, id, m - 1);
        let vs0 = states[k].versions;
        let vs1 = states[m].versions;
        let j = k - 1;
        assert(meaningful(Some(docs[j]), docs[j + 1]));
        lemma_latest_is_last_of_versions(vs0, id);
        if is_repeat(vs0, id, docs[k - 1].body, times[k]) {
            if m >= 3 {
                let prev = versions_of(vs0, id).last();
                assert(prev == versions_of(vs0, id)[m - 3]);
                assert(prev.snapshot == docs[m - 3].body);
                lemma_plain_contains_any_level(docs[m - 3].body, docs[m - 2].body, MaskLevel::Top);
                lemma_plain_contains_any_level(docs[m - 2].body, docs[m - 3].body, MaskLevel::Top);
                assert(same_content(docs[m - 3].body, docs[m - 2].body));
                let i = m - 3;
                assert(meaningful(Some(docs[i]), docs[i + 1]));
            }
            assert(false);
        }
        assert(vs1 =~= vs0.push(vs1.last()));
        assert(vs1.push(vs1.last()).drop_last() =~= vs1);
        assert(versions_of(vs1, id) == versions_of(vs0, id).push(vs1.last()));
    }
}

/// After `n` meaningfully distinct successive revisions of one new document, stored at
/// non-decreasing times, the version table holds exactly `n - 1` records of it: the first
/// `n - 1` bodies in order, each observed when the next revision came, so in non-decreasing
/// order of observation. The last revision is the live document.
pub proof fn lemma_history_complete(
    states: Seq<StoreView>,
    docs: Seq<Document>,
    times: Seq<i64>,
    outcomes: Seq<Outcome>,
    id: u128,
)
    requires
        docs.len() >= 1,
        states.len() == docs.len() + 1,
        times.len() == docs.len(),
        outcomes.len() == docs.len(),
        forall|k: int|
            0 <= k < docs.len() ==> #[trigger] stored(states[k], docs[k], times[k], states[k + 1], outcomes[k]),
        forall|k: int| 0 <= k < docs.len() ==> (#[trigger] docs[k]).id == id,
        !states[0].live.contains_key(id),
        versions_of(states[0].versions, id).len() == 0,
        forall|k: int|
            0 <= k < docs.len() - 1 ==> meaningful(Some(docs[k]), #[trigger] docs[k + 1]),
        forall|k: int| 0 <= k < times.len() - 1 ==> #[trigger] times[k] <= times[k + 1],
    ensures
        ({
            let history = versions_of(states[docs.len() as int].versions, id);
            &&& history.len() == docs.len() - 1
            &&& forall|k: int| 0 <= k < history.len() ==> (#[trigger] history[k]).snapshot == docs[k].body
            &&& forall|k: int, l: int|
                0 <= k <= l < history.len() ==> (#[trigger] history[k]).observed_at
                    <= (#[trigger] history[l]).observed_at
            &&& states[docs.len() as int].live[id] == docs[docs.len() - 1]
        }),
{
    let n = docs.len() as int;
    lemma_history_prefix(states, docs, times, outcomes, id, n);
    let history = versions_of(states[n].versions, id);
    assert forall|k: int, l: int|
        0 <= k <= l < history.len() implies (#[trigger] history[k]).observed_at
            <= (#[trigger] history[l]).observed_at by {
        lemma_times_sorted(times, k + 1, l + 1);
    }
}

proof fn lemma_times_sorted(times: Seq<i64>, k: int, l: int)
    requires
        forall|i: int| 0 <= i < times.len() - 1 ==> #[trigger] times[i] <= times[i + 1],
        0 <= k <= l < times.len(),
    ensures
        times[k] <= times[l],
    decreases l - k,
{
    if k < l {
        lemma_times_sorted(times, k, l - 1);
        assert(times[l - 1] <= times[l]);
    }
}

} // verus!
