use std::collections::HashMap;
use vstd::prelude::*;
use crate::canonical::{content_hash, content_hash_of};
use crate::detect::{is_meaningful_change, meaningful};
use crate::document::{
    Document, Malformation, awaits_backfill, canonicalize, created_of, id_of, malformation,
    needs_backfill, stamped_body,
};
use crate::external::now_millis;
use crate::json::{JsonValue, MaskLevel, contains, identical};

verus! {

broadcast use vstd::std_specs::hash::group_hash_axioms;

/// An immutable snapshot of a document body, taken when a meaningful change superseded it.
#[derive(Debug)]
pub struct VersionRecord {
    pub doc_id: u128,
    pub snapshot: JsonValue,
    pub observed_at: i64,
    pub content_hash: Vec<u8>,
}

/// A change notification, emitted for consumers as a hint.
#[derive(Debug)]
pub enum Notification {
    /// A document was seen for the first time.
    NewEvent(u128),
    /// A document changed meaningfully; the content hash of the archived previous body.
    ChangedEvent(u128, Vec<u8>),
}

/// What ingesting one upstream document did.
#[derive(Debug, Clone, Copy, PartialEq, Eq, Structural)]
pub enum Outcome {
    Inserted,
    Changed,
    Unchanged,
    Skipped(Malformation),
}

/// What ingesting a batch did.
#[derive(Debug)]
pub struct BatchReport {
    /// The greatest `created` instant among the documents that could be read.
    pub latest_created: Option<i64>,
    pub inserted: usize,
    pub changed: usize,
    pub unchanged: usize,
    pub skipped: usize,
    /// One outcome per document of the batch, in order.
    pub outcomes: Vec<Outcome>,
    /// The id of each document of the batch, in order; none for a skipped document.
    pub ids: Vec<Option<u128>>,
}

/// The live documents keyed by id, the version table in order of archiving, and the
/// notifications not yet handed out.
pub struct StoreView {
    pub live: Map<u128, Document>,
    pub versions: Seq<VersionRecord>,
    pub notifications: Seq<Notification>,
    pub order: Seq<u128>,
}

/// The live store, the version archive and the outgoing notifications.
pub struct Store {
    live: HashMap<u128, Document>,
    versions: Vec<VersionRecord>,
    notifications: Vec<Notification>,
    /// The ids of the live documents, in order of first arrival.
    order: Vec<u128>,
}

impl View for Store {
    type V = StoreView;

    closed spec fn view(&self) -> StoreView {
        StoreView {
            live: self.live@,
            versions: self.versions@,
            notifications: self.notifications@,
            order: self.order@,
        }
    }
}

/// Every live document sits under its own id, and the arrival order lists exactly the live ids.
pub open spec fn live_ids_match(s: StoreView) -> bool {
    &&& forall|id: u128| #[trigger] s.live.contains_key(id) ==> s.live[id].id == id
    &&& forall|i: int| 0 <= i < s.order.len() ==> s.live.contains_key(#[trigger] s.order[i])
    &&& forall|id: u128| #[trigger] s.live.contains_key(id) ==> s.order.contains(id)
}

proof fn lemma_ids_frame(s0: StoreView, s1: StoreView)
    requires
        live_ids_match(s0),
        s1.live == s0.live,
        s1.order == s0.order,
    ensures
        live_ids_match(s1),
{
}

proof fn lemma_ids_insert(s0: StoreView, s1: StoreView, d: Document)
    requires
        live_ids_match(s0),
        s1.live == s0.live.insert(d.id, d),
        s1.order == if s0.live.contains_key(d.id) {
            s0.order
        } else {
            s0.order.push(d.id)
        },
    ensures
        live_ids_match(s1),
{
    assert forall|i: int| 0 <= i < s1.order.len() implies s1.live.contains_key(#[trigger] s1.order[i]) by {
        if i < s0.order.len() {
            assert(s1.order[i] == s0.order[i]);
        }
    }
    assert forall|k: u128| #[trigger] s1.live.contains_key(k) implies s1.order.contains(k) by {
        if s0.live.contains_key(k) {
            let i = choose|i: int| 0 <= i < s0.order.len() && s0.order[i] == k;
            assert(s1.order[i] == k);
        } else {
            assert(s1.order[s1.order.len() - 1] == k);
        }
    }
}

/// `t` is the `created` instant of a live document that still awaits its un-redacted form.
pub open spec fn is_backfill_start(s: StoreView, t: i64) -> bool {
    exists|id: u128|
        #[trigger] s.live.contains_key(id) && awaits_backfill(s.live[id].body) && s.live[id].created
            == t
}

/// The most recently archived version of document `id`.
pub open spec fn latest_version(vs: Seq<VersionRecord>, id: u128) -> Option<VersionRecord>
    decreases vs.len(),
{
    if vs.len() == 0 {
        None
    } else if vs.last().doc_id == id {
        Some(vs.last())
    } else {
        latest_version(vs.drop_last(), id)
    }
}

/// Archiving `snapshot` for `id` at `t` repeats the latest archive of that document.
pub open spec fn is_repeat(vs: Seq<VersionRecord>, id: u128, snapshot: JsonValue, t: i64) -> bool {
    match latest_version(vs, id) {
        Some(r) => r.observed_at == t && identical(r.snapshot, snapshot),
        None => false,
    }
}

/// `vs1` is the version table `vs0` after archiving `snapshot` of `id` at `t`: one record is
/// appended, unless it would repeat the latest record of that document.
pub open spec fn archived(
    vs0: Seq<VersionRecord>,
    id: u128,
    snapshot: JsonValue,
    t: i64,
    vs1: Seq<VersionRecord>,
) -> bool {
    if is_repeat(vs0, id, snapshot, t) {
        vs1 == vs0
    } else {
        &&& vs1.len() == vs0.len() + 1
        &&& vs1.drop_last() == vs0
        &&& vs1.last().doc_id == id
        &&& vs1.last().snapshot == snapshot
        &&& vs1.last().observed_at == t
        &&& vs1.last().content_hash@ == content_hash_of(snapshot)
    }
}

/// `s1` is `s0` after storing the canonical document `d` at time `t`, with outcome `r`.
pub open spec fn stored(s0: StoreView, d: Document, t: i64, s1: StoreView, r: Outcome) -> bool {
    &&& s1.live == s0.live.insert(d.id, d)
    &&& if !s0.live.contains_key(d.id) {
        &&& r == Outcome::Inserted
        &&& s1.versions == s0.versions
        &&& s1.notifications == s0.notifications.push(Notification::NewEvent(d.id))
    } else if meaningful(Some(s0.live[d.id]), d) {
        &&& r == Outcome::Changed
        &&& archived(s0.versions, d.id, s0.live[d.id].body, t, s1.versions)
        &&& s1.notifications.len() == s0.notifications.len() + 1
        &&& s1.notifications.drop_last() == s0.notifications
        &&& s1.notifications.last() is ChangedEvent
        &&& s1.notifications.last()->ChangedEvent_0 == d.id
        &&& s1.notifications.last()->ChangedEvent_1@ == content_hash_of(s0.live[d.id].body)
    } else {
        &&& r == Outcome::Unchanged
        &&& s1.versions == s0.versions
        &&& s1.notifications == s0.notifications
    }
}

/// `d` is the stored form of `raw` from `source` at `now`.
pub open spec fn canonical_form(raw: JsonValue, source: Seq<char>, now: i64, d: Document) -> bool {
    &&& malformation(raw) is None
    &&& Some(d.id) == id_of(raw->Object_0@)
    &&& Some(d.created) == created_of(raw->Object_0@)
    &&& d.source@ == source
    &&& d.ingested_at == now
    &&& stamped_body(raw->Object_0@, d.body, d.created, source, now)
}

/// `s1` is `s0` after ingesting the raw document `raw` from `source` at `now`, with outcome `r`:
/// a malformed document is skipped and changes nothing; any other is stored in its canonical
/// form, observed at `now`.
pub open spec fn ingested(
    s0: StoreView,
    raw: JsonValue,
    source: Seq<char>,
    now: i64,
    s1: StoreView,
    r: Outcome,
) -> bool {
    match malformation(raw) {
        Some(m) => r == Outcome::Skipped(m) && s1 == s0,
        None => exists|d: Document| canonical_form(raw, source, now, d) && #[trigger] stored(s0, d, now, s1, r),
    }
}

/// `s1` is `s0` after ingesting the documents of `batch` one after another, with outcomes
/// `outcomes`: some sequence of stores runs from `s0` to `s1`, each step ingesting the next
/// document.
pub open spec fn ingested_batch(
    s0: StoreView,
    batch: Seq<JsonValue>,
    source: Seq<char>,
    now: i64,
    s1: StoreView,
    outcomes: Seq<Outcome>,
) -> bool {
    exists|states: Seq<StoreView>|
        {
            &&& states.len() == batch.len() + 1
            &&& outcomes.len() == batch.len()
            &&& states[0] == s0
            &&& #[trigger] states[batch.len() as int] == s1
            &&& forall|i: int|
                0 <= i < batch.len() ==> ingested(
                    states[i],
                    #[trigger] batch[i],
                    source,
                    now,
                    states[i + 1],
                    outcomes[i],
                )
        }
}

/// The number of malformed documents in a batch.
pub open spec fn malformed_count(batch: Seq<JsonValue>) -> nat
    decreases batch.len(),
{
    if batch.len() == 0 {
        0
    } else {
        malformed_count(batch.drop_last()) + if malformation(batch.last()) is Some {
            1nat
        } else {
            0nat
        }
    }
}

/// The number of times `o` occurs among `os`.
pub open spec fn outcome_count(os: Seq<Outcome>, o: Outcome) -> nat
    decreases os.len(),
{
    if os.len() == 0 {
        0
    } else {
        outcome_count(os.drop_last(), o) + if os.last() == o {
            1nat
        } else {
            0nat
        }
    }
}

/// The greatest `created` instant among the well-formed documents of a batch.
pub open spec fn max_created(batch: Seq<JsonValue>) -> Option<i64>
    decreases batch.len(),
{
    if batch.len() == 0 {
        None
    } else {
        let rest = max_created(batch.drop_last());
        if malformation(batch.last()) is Some {
            rest
        } else {
            let c = created_of(batch.last()->Object_0@)->0;
            match rest {
                None => Some(c),
                Some(m) => Some(if c > m { c } else { m }),
            }
        }
    }
}

/// Ingesting never removes a live document and never rewrites an archived version.
pub open spec fn grows(s0: StoreView, s1: StoreView) -> bool {
    &&& forall|id: u128| #[trigger] s0.live.contains_key(id) ==> s1.live.contains_key(id)
    &&& s1.versions.len() >= s0.versions.len()
    &&& s1.versions.take(s0.versions.len() as int) == s0.versions
}

proof fn lemma_stored_grows(s0: StoreView, d: Document, t: i64, s1: StoreView, r: Outcome)
    requires
        stored(s0, d, t, s1, r),
    ensures
        grows(s0, s1),
        s1.live.contains_key(d.id),
{
    assert(s0.versions.take(s0.versions.len() as int) =~= s0.versions);
    if s1.versions != s0.versions {
        assert(s1.versions.take(s0.versions.len() as int) =~= s1.versions.drop_last());
    }
}

proof fn lemma_grows_transitive(s0: StoreView, s1: StoreView, s2: StoreView)
    requires
        grows(s0, s1),
        grows(s1, s2),
    ensures
        grows(s0, s2),
{
    assert(s2.versions.take(s0.versions.len() as int) =~= s2.versions.take(
        s1.versions.len() as int,
    ).take(s0.versions.len() as int));
}

impl Store {
    /// The store's invariant.
    pub open spec fn wf(&self) -> bool {
        live_ids_match(self@)
    }

    /// An empty store.
    pub fn new() -> (r: Store)
        ensures
            r.wf(),
            r@.live == Map::<u128, Document>::empty(),
            r@.versions == Seq::<VersionRecord>::empty(),
            r@.notifications == Seq::<Notification>::empty(),
    {
        let r = Store {
            live: HashMap::new(),
            versions: Vec::new(),
            notifications: Vec::new(),
            order: Vec::new(),
        };
        proof {
            assert(r@.live =~= Map::<u128, Document>::empty());
        }
        r
    }

    /// Puts a document read back from the live table into the store, as it stands: no version
    /// is archived and nothing is notified.
    pub fn restore(&mut self, doc: Document)
        requires
            old(self).wf(),
        ensures
            final(self).wf(),
            final(self)@.live == old(self)@.live.insert(doc.id, doc),
            final(self)@.versions == old(self)@.versions,
            final(self)@.notifications == old(self)@.notifications,
    {
        let id = doc.id;
        let fresh = !self.live.contains_key(&id);
        let ghost d0 = doc;
        self.live.insert(id, doc);
        if fresh {
            self.order.push(id);
        }
        proof {
            lemma_ids_insert(old(self)@, self@, d0);
        }
    }

    /// The `created` instants of the live documents that still await their un-redacted form.
    pub fn backfill_starts(&self) -> (r: Vec<i64>)
        requires
            self.wf(),
        ensures
            forall|k: int| 0 <= k < r@.len() ==> is_backfill_start(self@, #[trigger] r@[k]),
            forall|id: u128|
                #[trigger] self@.live.contains_key(id) && awaits_backfill(self@.live[id].body)
                    ==> r@.contains(self@.live[id].created),
    {
        let mut r: Vec<i64> = Vec::new();
        let mut i: usize = 0;
        while i < self.order.len()
            invariant
                i <= self@.order.len(),
                self.wf(),
                forall|k: int| 0 <= k < r@.len() ==> is_backfill_start(self@, #[trigger] r@[k]),
                forall|j: int|
                    0 <= j < i && awaits_backfill(self@.live[#[trigger] self@.order[j]].body)
                        ==> r@.contains(self@.live[self@.order[j]].created),
            decreases self@.order.len() - i,
        {
            let id = self.order[i];
            assert(self@.live.contains_key(self@.order[i as int]));
            let ghost r0 = r@;
            match self.live.get(&id) {
                Some(d) => {
                    if needs_backfill(d) {
                        r.push(d.created);
                        proof {
                            assert(is_backfill_start(self@, d.created));
                            assert(r@[r@.len() - 1] == d.created);
                        }
                    }
                },
                None => {},
            }
            proof {
                assert forall|k: int| 0 <= k < r@.len() implies is_backfill_start(self@, #[trigger] r@[k]) by {
                    if k < r0.len() {
                        assert(r@[k] == r0[k]);
                    }
                }
                assert forall|j: int|
                    0 <= j <= i && awaits_backfill(self@.live[#[trigger] self@.order[j]].body)
                        implies r@.contains(self@.live[self@.order[j]].created) by {
                    if j < i {
                        let w = choose|w: int| 0 <= w < r0.len() && r0[w] == self@.live[self@.order[j]].created;
                        assert(r@[w] == r0[w]);
                    } else {
                        assert(r@[r@.len() - 1] == self@.live[self@.order[j]].created);
                    }
                }
            }
            i = i + 1;
        }
        proof {
            assert forall|id: u128|
                #[trigger] self@.live.contains_key(id) && awaits_backfill(self@.live[id].body)
                    implies r@.contains(self@.live[id].created) by {
                let j = choose|j: int| 0 <= j < self@.order.len() && self@.order[j] == id;
                assert(self@.order[j] == id);
            }
        }
        r
    }

    /// The greatest `created` instant among the live documents, where a poller restarted on
    /// this store resumes.
    pub fn latest_created(&self) -> (r: Option<i64>)
        requires
            self.wf(),
        ensures
            match r {
                None => self@.live.dom() == Set::<u128>::empty(),
                Some(m) => {
                    &&& exists|id: u128| #[trigger] self@.live.contains_key(id) && self@.live[id].created == m
                    &&& forall|id: u128| #[trigger] self@.live.contains_key(id) ==> self@.live[id].created <= m
                },
            },
    {
        let mut best: Option<i64> = None;
        let mut i: usize = 0;
        while i < self.order.len()
            invariant
                i <= self@.order.len(),
                self.wf(),
                i == 0 <==> best is None,
                match best {
                    None => true,
                    Some(m) => {
                        &&& exists|id: u128| #[trigger] self@.live.contains_key(id) && self@.live[id].created == m
                        &&& forall|j: int| 0 <= j < i ==> self@.live[#[trigger] self@.order[j]].created <= m
                    },
                },
            decreases self@.order.len() - i,
        {
            let id = self.order[i];
            assert(self@.live.contains_key(self@.order[i as int]));
            match self.live.get(&id) {
                Some(d) => {
                    best = match best {
                        None => Some(d.created),
                        Some(m) => Some(if d.created > m { d.created } else { m }),
                    };
                },
                None => {},
            }
            i = i + 1;
        }
        proof {
            match best {
                None => {
                    assert forall|id: u128| !self@.live.contains_key(id) by {
                        if self@.live.contains_key(id) {
                            let j = choose|j: int| 0 <= j < self@.order.len() && self@.order[j] == id;
                        }
                    }
                    assert(self@.live.dom() =~= Set::<u128>::empty());
                },
                Some(m) => {
                    assert forall|id: u128| #[trigger] self@.live.contains_key(id) implies self@.live[id].created <= m by {
                        let j = choose|j: int| 0 <= j < self@.order.len() && self@.order[j] == id;
                        assert(self@.order[j] == id);
                    }
                },
            }
        }
        best
    }

    /// The live document with id `id`.
    pub fn get(&self, id: u128) -> (r: Option<&Document>)
        ensures
            match r {
                Some(d) => self@.live.contains_key(id) && *d == self@.live[id],
                None => !self@.live.contains_key(id),
            },
    {
        self.live.get(&id)
    }

    /// The number of live documents.
    pub fn live_count(&self) -> (r: usize)
        ensures
            r == self@.live.len(),
    {
        self.live.len()
    }

    /// The version table, in order of archiving.
    pub fn versions(&self) -> (r: &Vec<VersionRecord>)
        ensures
            r@ == self@.versions,
    {
        &self.versions
    }

    /// Hands out the pending notifications, oldest first, and clears them.
    pub fn take_notifications(&mut self) -> (r: Vec<Notification>)
        requires
            old(self).wf(),
        ensures
            final(self).wf(),
            r@ == old(self)@.notifications,
            final(self)@.notifications == Seq::<Notification>::empty(),
            final(self)@.live == old(self)@.live,
            final(self)@.versions == old(self)@.versions,
    {
        let mut r: Vec<Notification> = Vec::new();
        std::mem::swap(&mut r, &mut self.notifications);
        proof {
            lemma_ids_frame(old(self)@, self@);
        }
        r
    }

    fn latest_index(&self, id: u128) -> (r: Option<usize>)
        ensures
            match r {
                Some(i) => i < self@.versions.len() && latest_version(self@.versions, id) == Some(
                    self@.versions[i as int],
                ),
                None => latest_version(self@.versions, id) is None,
            },
    {
        let mut i: usize = self.versions.len();
        proof {
            assert(self@.versions.take(i as int) =~= self@.versions);
        }
        while i > 0
            invariant
                i <= self@.versions.len(),
                latest_version(self@.versions, id) == latest_version(
                    self@.versions.take(i as int),
                    id,
                ),
            decreases i,
        {
            let ghost pre = self@.versions.take(i as int);
            proof {
                assert(pre.drop_last() =~= self@.versions.take(i - 1));
            }
            if self.versions[i - 1].doc_id == id {
                return Some(i - 1);
            }
            i = i - 1;
        }
        None
    }

    /// Appends a version record for the superseded body `snapshot` of `doc_id`, observed at
    /// `observed_at`, unless it repeats the latest record of that document; returns its
    /// content hash.
    pub fn archive(&mut self, doc_id: u128, snapshot: JsonValue, observed_at: i64) -> (r: Vec<u8>)
        requires
            old(self).wf(),
        ensures
            final(self).wf(),
            r@ == content_hash_of(snapshot),
            archived(old(self)@.versions, doc_id, snapshot, observed_at, final(self)@.versions),
            final(self)@.live == old(self)@.live,
            final(self)@.order == old(self)@.order,
            final(self)@.notifications == old(self)@.notifications,
    {
        proof {
            assert(self@.versions.take(self@.versions.len() as int) =~= self@.versions);
        }
        let hash = content_hash(&snapshot);
        let repeat = match self.latest_index(doc_id) {
            Some(i) => self.versions[i].observed_at == observed_at && contains(
                &self.versions[i].snapshot,
                &snapshot,
                MaskLevel::Plain,
            ) && contains(&snapshot, &self.versions[i].snapshot, MaskLevel::Plain),
            None => false,
        };
        if !repeat {
            let record = VersionRecord {
                doc_id,
                snapshot,
                observed_at,
                content_hash: hash.clone(),
            };
            self.versions.push(record);
            proof {
                lemma_ids_frame(old(self)@, self@);
            }
            proof {
                assert(self@.versions.drop_last() =~= old(self)@.versions);
            }
        }
        hash
    }

    /// Stores the canonical document `doc`, observed at `observed_at`: inserts a new document,
    /// or replaces the live one, archiving it first when the change is meaningful.
    pub fn store_document(&mut self, doc: Document, observed_at: i64) -> (r: Outcome)
        requires
            old(self).wf(),
        ensures
            final(self).wf(),
            stored(old(self)@, doc, observed_at, final(self)@, r),
    {
        let id = doc.id;
        let change = match self.live.get(&id) {
            Some(p) => Some(is_meaningful_change(Some(p), &doc)),
            None => None,
        };
        let ghost d0 = doc;
        let previous = self.live.insert(id, doc);
        if change.is_none() {
            self.order.push(id);
        }
        proof {
            assert(self@.live =~= old(self)@.live.insert(id, d0));
            lemma_ids_insert(old(self)@, self@, d0);
        }
        let ghost s1 = self@;
        match (change, previous) {
            (Some(true), Some(p)) => {
                let hash = self.archive(id, p.body, observed_at);
                self.notifications.push(Notification::ChangedEvent(id, hash));
                proof {
                    assert(self@.notifications.drop_last() =~= old(self)@.notifications);
                    lemma_ids_frame(s1, self@);
                }
                Outcome::Changed
            },
            (Some(_), _) => Outcome::Unchanged,
            (None, _) => {
                self.notifications.push(Notification::NewEvent(id));
                proof {
                    lemma_ids_frame(s1, self@);
                }
                Outcome::Inserted
            },
        }
    }

    /// Ingests a batch of raw upstream documents from `source` at time `now` (epoch
    /// milliseconds), in order. A malformed document is skipped and the rest are ingested.
    pub fn ingest(&mut self, batch: Vec<JsonValue>, source: &str, now: i64) -> (r: BatchReport)
        requires
            old(self).wf(),
        ensures
            final(self).wf(),
            ingested_batch(old(self)@, batch@, source@, now, final(self)@, r.outcomes@),
            grows(old(self)@, final(self)@),
            r.outcomes@.len() == batch@.len(),
            r.ids@.len() == batch@.len(),
            forall|i: int|
                #![trigger batch@[i]]
                0 <= i < batch@.len() ==> match malformation(batch@[i]) {
                    Some(m) => r.outcomes@[i] == Outcome::Skipped(m) && r.ids@[i] is None,
                    None => {
                        &&& !(r.outcomes@[i] is Skipped)
                        &&& r.ids@[i] == id_of(batch@[i]->Object_0@)
                        &&& final(self)@.live.contains_key(id_of(batch@[i]->Object_0@)->0)
                    },
                },
            r.skipped == malformed_count(batch@),
            r.inserted == outcome_count(r.outcomes@, Outcome::Inserted),
            r.changed == outcome_count(r.outcomes@, Outcome::Changed),
            r.unchanged == outcome_count(r.outcomes@, Outcome::Unchanged),
            r.latest_created == max_created(batch@),
    {
        let ghost b = batch@;
        let total: usize = batch.len();
        let mut rest = batch;
        let mut outcomes: Vec<Outcome> = Vec::new();
        let mut ids: Vec<Option<u128>> = Vec::new();
        let mut latest: Option<i64> = None;
        let mut inserted: usize = 0;
        let mut changed: usize = 0;
        let mut unchanged: usize = 0;
        let mut skipped: usize = 0;
        let ghost mut n: int = 0;
        let ghost mut states: Seq<StoreView> = seq![self@];
        proof {
            assert(b.subrange(0, b.len() as int) =~= b);
            assert(b.take(0) =~= Seq::<JsonValue>::empty());
            assert(old(self)@.versions.take(old(self)@.versions.len() as int) =~= old(self)@.versions);
        }
        while rest.len() > 0
            invariant
                0 <= n <= b.len(),
                b.len() == total,
                rest@ == b.subrange(n, b.len() as int),
                outcomes@.len() == n,
                ids@.len() == n,
                states.len() == n + 1,
                states[0] == old(self)@,
                states[n] == self@,
                forall|i: int|
                    0 <= i < n ==> ingested(
                        states[i],
                        #[trigger] b[i],
                        source@,
                        now,
                        states[i + 1],
                        outcomes@[i],
                    ),
                self.wf(),
                grows(old(self)@, self@),
                forall|i: int|
                    #![trigger b[i]]
                    0 <= i < n ==> match malformation(b[i]) {
                        Some(m) => outcomes@[i] == Outcome::Skipped(m) && ids@[i] is None,
                        None => {
                            &&& !(outcomes@[i] is Skipped)
                            &&& ids@[i] == id_of(b[i]->Object_0@)
                            &&& self@.live.contains_key(id_of(b[i]->Object_0@)->0)
                        },
                    },
                skipped == malformed_count(b.take(n)),
                inserted == outcome_count(outcomes@, Outcome::Inserted),
                changed == outcome_count(outcomes@, Outcome::Changed),
                unchanged == outcome_count(outcomes@, Outcome::Unchanged),
                skipped <= n && inserted <= n && changed <= n && unchanged <= n,
                latest == max_created(b.take(n)),
            decreases rest@.len(),
        {
            let raw = rest.remove(0);
            let ghost s0 = self@;
            let ghost os0 = outcomes@;
            let ghost ids0 = ids@;
            proof {
                assert(b[n] == raw);
                assert(b.take(n + 1).drop_last() =~= b.take(n));
                assert(b.take(n + 1).last() == raw);
            }
            let ghost raw0 = raw;
            let outcome = match canonicalize(raw, source, now) {
                Err(m) => {
                    skipped = skipped + 1;
                    ids.push(None);
                    Outcome::Skipped(m)
                },
                Ok(d) => {
                    proof {
                        assert(canonical_form(raw0, source@, now, d));
                    }
                    ids.push(Some(d.id));
                    let c = d.created;
                    latest = match latest {
                        None => Some(c),
                        Some(m) => Some(if c > m { c } else { m }),
                    };
                    let ghost d0 = d;
                    let o = self.store_document(d, now);
                    proof {
                        lemma_stored_grows(s0, d0, now, self@, o);
                        lemma_grows_transitive(old(self)@, s0, self@);
                        assert(stored(s0, d0, now, self@, o));
                    }
                    o
                },
            };
            match outcome {
                Outcome::Inserted => {
                    inserted = inserted + 1;
                },
                Outcome::Changed => {
                    changed = changed + 1;
                },
                Outcome::Unchanged => {
                    unchanged = unchanged + 1;
                },
                Outcome::Skipped(_) => {},
            }
            outcomes.push(outcome);
            proof {
                assert(ingested(s0, raw0, source@, now, self@, outcome));
                let states0 = states;
                states = states.push(self@);
                assert forall|i: int|
                    0 <= i < n + 1 implies ingested(
                        states[i],
                        #[trigger] b[i],
                        source@,
                        now,
                        states[i + 1],
                        outcomes@[i],
                    ) by {
                    if i < n {
                        assert(states[i] == states0[i] && states[i + 1] == states0[i + 1]);
                        assert(outcomes@[i] == os0[i]);
                    }
                }
                assert(outcomes@.drop_last() =~= os0);
                assert forall|i: int|
                    #![trigger b[i]]
                    0 <= i < n + 1 implies match malformation(b[i]) {
                        Some(m) => outcomes@[i] == Outcome::Skipped(m) && ids@[i] is None,
                        None => {
                            &&& !(outcomes@[i] is Skipped)
                            &&& ids@[i] == id_of(b[i]->Object_0@)
                            &&& self@.live.contains_key(id_of(b[i]->Object_0@)->0)
                        },
                    } by {
                    if i < n {
                        assert(outcomes@[i] == os0[i]);
                        assert(ids@[i] == ids0[i]);
                        if malformation(b[i]) is None {
                            assert(s0.live.contains_key(id_of(b[i]->Object_0@)->0));
                        }
                    }
                }
                n = n + 1;
                assert(rest@ =~= b.subrange(n, b.len() as int));
            }
        }
        proof {
            assert(b.take(b.len() as int) =~= b);
            assert(states[b.len() as int] == self@);
        }
        BatchReport { latest_created: latest, inserted, changed, unchanged, skipped, outcomes, ids }
    }

    /// Ingests a batch from `source`, stamped with the current wall-clock time.
    pub fn ingest_now(&mut self, batch: Vec<JsonValue>, source: &str) -> (r: BatchReport)
        requires
            old(self).wf(),
        ensures
            final(self).wf(),
            grows(old(self)@, final(self)@),
            r.outcomes@.len() == batch@.len(),
            r.ids@.len() == batch@.len(),
            forall|i: int|
                #![trigger batch@[i]]
                0 <= i < batch@.len() ==> match malformation(batch@[i]) {
                    Some(m) => r.outcomes@[i] == Outcome::Skipped(m) && r.ids@[i] is None,
                    None => {
                        &&& !(r.outcomes@[i] is Skipped)
                        &&& r.ids@[i] == id_of(batch@[i]->Object_0@)
                        &&& final(self)@.live.contains_key(id_of(batch@[i]->Object_0@)->0)
                    },
                },
            r.skipped == malformed_count(batch@),
            r.inserted == outcome_count(r.outcomes@, Outcome::Inserted),
            r.changed == outcome_count(r.outcomes@, Outcome::Changed),
            r.unchanged == outcome_count(r.outcomes@, Outcome::Unchanged),
            r.latest_created == max_created(batch@),
            exists|now: i64| ingested_batch(old(self)@, batch@, source@, now, final(self)@, r.outcomes@),
    {
        let now = now_millis();
        self.ingest(batch, source, now)
    }

    /// Ingests one raw upstream document from `source` at time `now` (epoch milliseconds).
    pub fn ingest_document(&mut self, raw: JsonValue, source: &str, now: i64) -> (r: Outcome)
        requires
            old(self).wf(),
        ensures
            final(self).wf(),
            ingested(old(self)@, raw, source@, now, final(self)@, r),
    {
        let ghost raw0 = raw;
        match canonicalize(raw, source, now) {
            Err(m) => Outcome::Skipped(m),
            Ok(d) => {
                let ghost d0 = d;
                let r = self.store_document(d, now);
                proof {
                    assert(canonical_form(raw0, source@, now, d0));
                    assert(stored(old(self)@, d0, now, self@, r));
                }
                r
            },
        }
    }
}

} // verus!
