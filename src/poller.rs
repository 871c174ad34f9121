use vstd::prelude::*;

verus! {

/// The number of documents asked for in one page.
pub const PAGE_SIZE: u64 = 100;

/// A request for one page of the upstream feed.
#[derive(Debug, Clone, Copy, PartialEq, Eq, Structural)]
pub struct PageRequest {
    pub limit: u64,
    pub ascending: bool,
    /// The earliest `created` instant asked for (epoch milliseconds), if any.
    pub start: Option<i64>,
}

/// Why a poll iteration did not commit.
#[derive(Debug, Clone, Copy, PartialEq, Eq, Structural)]
pub enum PollError {
    /// The upstream request failed or timed out.
    TransientSourceError,
    /// The store transaction failed and was rolled back.
    StoreError,
}

/// What one poll iteration came to.
#[derive(Debug, Clone, Copy, PartialEq, Eq, Structural)]
pub enum PollEvent {
    /// The page was empty.
    EmptyPage,
    /// The page was ingested and committed; the greatest `created` instant in it, if any
    /// document could be read.
    Committed(Option<i64>),
    /// The iteration failed.
    Failed(PollError),
}

/// The resumption point of one upstream source: the greatest `created` instant committed so
/// far. It lives as long as the poller that owns it.
#[derive(Debug, Clone, Copy, PartialEq, Eq, Structural)]
pub struct Cursor {
    pub latest: Option<i64>,
}

/// The order on cursor positions: no position comes before every instant.
pub open spec fn at_or_after(new: Option<i64>, old: Option<i64>) -> bool {
    match old {
        None => true,
        Some(o) => new is Some && new->0 >= o,
    }
}

/// The position after committing a page whose greatest instant is `seen`.
pub open spec fn advanced(latest: Option<i64>, seen: Option<i64>) -> Option<i64> {
    match (latest, seen) {
        (Some(l), Some(s)) => Some(if s > l { s } else { l }),
        (None, s) => s,
        (l, None) => l,
    }
}

/// The request that a cursor position leads to; none when no instant lies after it.
pub open spec fn request_for(latest: Option<i64>) -> Option<PageRequest> {
    match latest {
        None => Some(PageRequest { limit: PAGE_SIZE, ascending: true, start: None }),
        Some(l) => if l < i64::MAX {
            Some(PageRequest { limit: PAGE_SIZE, ascending: true, start: Some((l + 1) as i64) })
        } else {
            None
        },
    }
}

impl Cursor {
    /// The cursor of a freshly started poller: nothing is committed yet.
    pub fn new() -> (r: Cursor)
        ensures
            r.latest is None,
    {
        Cursor { latest: None }
    }

    /// A cursor resumed from the latest `created` instant already in the store.
    pub fn resume(latest: Option<i64>) -> (r: Cursor)
        ensures
            r.latest == latest,
    {
        Cursor { latest }
    }

    /// The next page to ask for: from the start of the feed, in ascending order, when nothing is
    /// committed; otherwise strictly after the latest committed instant.
    pub fn next_request(&self) -> (r: Option<PageRequest>)
        ensures
            r == request_for(self.latest),
    {
        match self.latest {
            None => Some(PageRequest { limit: PAGE_SIZE, ascending: true, start: None }),
            Some(l) => if l < i64::MAX {
                Some(PageRequest { limit: PAGE_SIZE, ascending: true, start: Some(l + 1) })
            } else {
                None
            },
        }
    }

    /// Takes the outcome of one iteration: a committed page advances the cursor to its greatest
    /// instant, unless the cursor already stands later; anything else leaves it as it is.
    pub fn record(&mut self, event: PollEvent)
        ensures
            final(self).latest == match event {
                PollEvent::Committed(seen) => advanced(old(self).latest, seen),
                _ => old(self).latest,
            },
            at_or_after(final(self).latest, old(self).latest),
            event is Failed ==> *final(self) == *old(self),
    {
        match event {
            PollEvent::Committed(Some(s)) => {
                self.latest = match self.latest {
                    Some(l) => Some(if s > l { s } else { l }),
                    None => Some(s),
                };
            },
            _ => {},
        }
    }
}

/// The request that re-reads the primary feed from the origination of a document that still
/// awaits its un-redacted form.
pub fn backfill_request(created: i64) -> (r: PageRequest)
    ensures
        r == (PageRequest { limit: PAGE_SIZE, ascending: true, start: Some(created) }),
{
    PageRequest { limit: PAGE_SIZE, ascending: true, start: Some(created) }
}

/// Over any sequence of iterations the cursor never moves back, and a failed iteration leaves
/// it where it was.
pub proof fn lemma_cursor_monotone(positions: Seq<Option<i64>>, events: Seq<PollEvent>)
    requires
        positions.len() == events.len() + 1,
        forall|k: int|
            0 <= k < events.len() ==> #[trigger] positions[k + 1] == match events[k] {
                PollEvent::Committed(seen) => advanced(positions[k], seen),
                _ => positions[k],
            },
    ensures
        forall|k: int, l: int|
            0 <= k <= l < positions.len() ==> at_or_after(
                #[trigger] positions[l],
                #[trigger] positions[k],
            ),
        forall|k: int|
            0 <= k < events.len() && #[trigger] events[k] is Failed ==> positions[k + 1]
                == positions[k],
{
    assert forall|k: int, l: int|
        0 <= k <= l < positions.len() implies at_or_after(
        #[trigger] positions[l],
        #[trigger] positions[k],
    ) by {
        lemma_positions_ordered(positions, events, k, l);
    }
}

proof fn lemma_positions_ordered(positions: Seq<Option<i64>>, events: Seq<PollEvent>, k: int, l: int)
    requires
        positions.len() == events.len() + 1,
        forall|i: int|
            0 <= i < events.len() ==> #[trigger] positions[i + 1] == match events[i] {
                PollEvent::Committed(seen) => advanced(positions[i], seen),
                _ => positions[i],
            },
        0 <= k <= l < positions.len(),
    ensures
        at_or_after(positions[l], positions[k]),
    decreases l - k,
{
    if k < l {
        lemma_positions_ordered(positions, events, k, l - 1);
        let i = l - 1;
        assert(positions[i + 1] == match events[i] {
            PollEvent::Committed(seen) => advanced(positions[i], seen),
            _ => positions[i],
        });
    }
}

} // verus!
