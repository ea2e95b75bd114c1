//! The event buffer: a rolling history of scored blocks with a squelch
//! policy that decides when a burst is over and its history is flushed.
use vstd::prelude::*;

verus! {

/// Number of most recent blocks that must all be quiet to end a burst.
pub const GAP_SIZE: usize = 15;

/// A flush needs more than this many event blocks in the history.
pub const MIN_EVENTS: usize = 2;

/// A block is an event block when more than this many of its windows hit.
pub const EVENT_HITS: u32 = 1;

/// A raw sample block with the number of its analysis windows that were
/// classified as interesting.
pub struct ScoredBlock {
    pub hits: u32,
    pub data: Vec<u8>,
}

impl View for ScoredBlock {
    type V = (u32, Seq<u8>);

    open spec fn view(&self) -> (u32, Seq<u8>) {
        (self.hits, self.data@)
    }
}

/// Abstract history: hit count and bytes of each block, oldest first.
pub type History = Seq<(u32, Seq<u8>)>;

/// The newest `GAP_SIZE` entries all have no hit, and there are more than
/// `GAP_SIZE` entries.
pub open spec fn was_quiet(s: History) -> bool {
    &&& s.len() > GAP_SIZE
    &&& forall|i: int| s.len() - GAP_SIZE <= i < s.len() ==> #[trigger] s[i].0 == 0
}

/// Number of entries whose hit count makes them event blocks.
pub open spec fn event_count(s: History) -> nat
    decreases s.len(),
{
    if s.len() == 0 {
        0
    } else {
        event_count(s.drop_last()) + if s.last().0 > EVENT_HITS {
            1nat
        } else {
            0nat
        }
    }
}

/// History after the eviction step and the append of a new entry.
pub open spec fn appended(s: History, data: Seq<u8>, hits: u32) -> History {
    (if was_quiet(s) {
        s.drop_first()
    } else {
        s
    }).push((hits, data))
}

/// Whether ingesting the block ends a burst that is worth keeping.
pub open spec fn flushes(s: History, data: Seq<u8>, hits: u32) -> bool {
    was_quiet(s) && event_count(appended(s, data, hits)) > MIN_EVENTS
}

/// History after ingesting one block.
pub open spec fn ingested(s: History, data: Seq<u8>, hits: u32) -> History {
    if flushes(s, data, hits) {
        Seq::empty()
    } else {
        appended(s, data, hits)
    }
}

/// Rolling history of scored blocks, oldest first.
pub struct EventBuffer {
    entries: Vec<ScoredBlock>,
}

impl View for EventBuffer {
    type V = History;

    closed spec fn view(&self) -> History {
        self.entries@.map_values(|b: ScoredBlock| b@)
    }
}

proof fn lemma_event_count_push(s: History, e: (u32, Seq<u8>))
    ensures
        event_count(s.push(e)) == event_count(s) + if e.0 > EVENT_HITS {
            1nat
        } else {
            0nat
        },
{
    assert(s.push(e).drop_last() =~= s);
}

impl EventBuffer {
    /// An empty history.
    pub fn new() -> (r: EventBuffer)
        ensures
            r@ == Seq::<(u32, Seq<u8>)>::empty(),
    {
        let r = EventBuffer { entries: Vec::new() };
        assert(r@ =~= Seq::<(u32, Seq<u8>)>::empty());
        r
    }

    /// Number of blocks held.
    pub fn len(&self) -> (r: usize)
        ensures
            r == self@.len(),
    {
        self.entries.len()
    }

    /// Hit count of the block at `i`, oldest first.
    pub fn hits_at(&self, i: usize) -> (r: u32)
        requires
            i < self@.len(),
        ensures
            r == self@[i as int].0,
    {
        self.entries[i].hits
    }

    /// Whether the newest `GAP_SIZE` blocks all had no hit, with more than
    /// `GAP_SIZE` blocks held.
    pub fn currently_quiet(&self) -> (r: bool)
        ensures
            r == was_quiet(self@),
    {
        let n = self.entries.len();
        if n <= GAP_SIZE {
            return false;
        }
        let mut i: usize = n - GAP_SIZE;
        while i < n
            invariant
                n == self@.len(),
                n > GAP_SIZE,
                n - GAP_SIZE <= i <= n,
                forall|j: int| n - GAP_SIZE <= j < i ==> #[trigger] self@[j].0 == 0,
            decreases n - i,
        {
            if self.entries[i].hits != 0 {
                assert(self@[i as int].0 != 0);
                return false;
            }
            i = i + 1;
        }
        true
    }

    /// Number of event blocks held.
    pub fn event_count(&self) -> (r: usize)
        ensures
            r == event_count(self@),
    {
        let n = self.entries.len();
        let mut count: usize = 0;
        let mut i: usize = 0;
        while i < n
            invariant
                n == self@.len(),
                i <= n,
                count == event_count(self@.take(i as int)),
                count <= i,
            decreases n - i,
        {
            proof {
                assert(self@.take(i as int + 1) =~= self@.take(i as int).push(self@[i as int]));
                lemma_event_count_push(self@.take(i as int), self@[i as int]);
            }
            if self.entries[i].hits > EVENT_HITS {
                count = count + 1;
            }
            i = i + 1;
        }
        assert(self@.take(n as int) =~= self@);
        count
    }

    /// Records a block with its hit count. When the history was quiet, the
    /// oldest block is evicted first. When that ends a burst with more than
    /// `MIN_EVENTS` event blocks, the whole history is handed back, oldest
    /// first, and the buffer is left empty.
    pub fn ingest(&mut self, data: Vec<u8>, hits: u32) -> (r: Option<Vec<ScoredBlock>>)
        ensures
            final(self)@ == ingested(old(self)@, data@, hits),
            r.is_some() == flushes(old(self)@, data@, hits),
            r matches Some(out) ==> out@.map_values(|b: ScoredBlock| b@) == appended(
                old(self)@,
                data@,
                hits,
            ),
    {
        let ghost s = self@;
        let quiet = self.currently_quiet();
        if quiet {
            self.entries.remove(0);
            assert(self@ =~= s.drop_first());
        }
        let block = ScoredBlock { hits, data };
        self.entries.push(block);
        assert(self@ =~= appended(s, block.data@, hits));
        let events = self.event_count();
        if quiet && events > MIN_EVENTS {
            let mut out: Vec<ScoredBlock> = Vec::new();
            std::mem::swap(&mut out, &mut self.entries);
            assert(self@ =~= Seq::<(u32, Seq<u8>)>::empty());
            Some(out)
        } else {
            None
        }
    }
}

/// History after ingesting, in order, one block with no hit for each entry
/// of `blocks`.
pub open spec fn feed_quiet(s: History, blocks: Seq<Seq<u8>>) -> History
    decreases blocks.len(),
{
    if blocks.len() == 0 {
        s
    } else {
        ingested(feed_quiet(s, blocks.drop_last()), blocks.last(), 0)
    }
}

/// The newest `c` entries (or all, if fewer) have no hit.
pub open spec fn tail_quiet(s: History, c: int) -> bool {
    forall|i: int| 0 <= i < s.len() && s.len() - c <= i ==> #[trigger] s[i].0 == 0
}

proof fn lemma_step_tail_quiet(s: History, data: Seq<u8>, c: int)
    requires
        0 <= c,
        tail_quiet(s, c),
    ensures
        tail_quiet(ingested(s, data, 0), c + 1),
{
    let a = appended(s, data, 0);
    if !flushes(s, data, 0) {
        assert forall|i: int| 0 <= i < a.len() && a.len() - (c + 1) <= i implies #[trigger] a[i].0
            == 0 by {
            if i < a.len() - 1 {
                if was_quiet(s) {
                    assert(a[i] == s[i + 1]);
                } else {
                    assert(a[i] == s[i]);
                }
            }
        }
    }
}

proof fn lemma_feed_tail_quiet(s: History, blocks: Seq<Seq<u8>>)
    ensures
        tail_quiet(feed_quiet(s, blocks), blocks.len() as int),
    decreases blocks.len(),
{
    if blocks.len() > 0 {
        lemma_feed_tail_quiet(s, blocks.drop_last());
        lemma_step_tail_quiet(
            feed_quiet(s, blocks.drop_last()),
            blocks.last(),
            blocks.len() - 1,
        );
    }
}

proof fn lemma_step_bounded(s: History, data: Seq<u8>, m: int)
    requires
        m > GAP_SIZE,
        tail_quiet(s, GAP_SIZE as int),
        s.len() <= m,
    ensures
        tail_quiet(ingested(s, data, 0), GAP_SIZE as int),
        ingested(s, data, 0).len() <= m,
{
    lemma_step_tail_quiet(s, data, GAP_SIZE as int);
}

proof fn lemma_feed_bounded(s: History, blocks: Seq<Seq<u8>>, k: int, m: int)
    requires
        GAP_SIZE <= k <= blocks.len(),
        m > GAP_SIZE,
        feed_quiet(s, blocks.take(k)).len() <= m,
    ensures
        tail_quiet(feed_quiet(s, blocks), GAP_SIZE as int),
        feed_quiet(s, blocks).len() <= m,
    decreases blocks.len(),
{
    if blocks.len() == k {
        assert(blocks.take(k) =~= blocks);
        lemma_feed_tail_quiet(s, blocks);
    } else {
        assert(blocks.drop_last().take(k) =~= blocks.take(k));
        lemma_feed_bounded(s, blocks.drop_last(), k, m);
        lemma_step_bounded(feed_quiet(s, blocks.drop_last()), blocks.last(), m);
    }
}

/// Under sustained quiet the history stops growing: once `GAP_SIZE` blocks
/// with no hit have been ingested, further blocks with no hit never take its
/// length above the larger of its length at that point and `GAP_SIZE + 1`.
pub proof fn lemma_quiet_never_grows(s: History, blocks: Seq<Seq<u8>>)
    requires
        blocks.len() >= GAP_SIZE,
    ensures
        feed_quiet(s, blocks).len() <= if feed_quiet(s, blocks.take(GAP_SIZE as int)).len()
            > GAP_SIZE + 1 {
            feed_quiet(s, blocks.take(GAP_SIZE as int)).len() as int
        } else {
            GAP_SIZE + 1
        },
{
    let r = feed_quiet(s, blocks.take(GAP_SIZE as int)).len() as int;
    let m = if r > GAP_SIZE + 1 {
        r
    } else {
        GAP_SIZE + 1
    };
    lemma_feed_bounded(s, blocks, GAP_SIZE as int, m);
}

/// Starting from an empty history, blocks with no hit never make it longer
/// than `GAP_SIZE + 1`, and it holds only entries with no hit.
pub proof fn lemma_quiet_from_empty(blocks: Seq<Seq<u8>>)
    ensures
        feed_quiet(Seq::empty(), blocks).len() <= GAP_SIZE + 1,
        forall|i: int|
            0 <= i < feed_quiet(Seq::empty(), blocks).len() ==> #[trigger] feed_quiet(
                Seq::empty(),
                blocks,
            )[i].0 == 0,
    decreases blocks.len(),
{
    if blocks.len() > 0 {
        lemma_quiet_from_empty(blocks.drop_last());
        let p = feed_quiet(Seq::empty(), blocks.drop_last());
        lemma_step_bounded(p, blocks.last(), GAP_SIZE + 1);
        lemma_step_tail_quiet(p, blocks.last(), GAP_SIZE + 1);
    }
}

} // verus!
