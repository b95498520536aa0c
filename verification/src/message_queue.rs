//! The cache of message identifiers that were seen recently, used to drop repeated messages.

use crate::clock::{elapsed_millis, instant_now};
use std::collections::VecDeque;
use std::time::Instant;
use vstd::prelude::*;
use vstd::string::*;

verus! {

/// Time for which an identifier is remembered unless another is configured: five minutes.
pub const DEFAULT_TTL_MILLIS: u64 = 300_000;

/// One remembered identifier and the time, in milliseconds, at which it arrived.
#[derive(Debug)]
pub struct SeenEntry {
    pub message_id: String,
    pub arrival: u64,
}

/// What a cache holds, oldest first: identifiers with their arrival times.
pub type Entries = Seq<(Seq<char>, u64)>;

/// Whether an entry that arrived at `arrival` is older than `ttl` at `now`.
pub open spec fn expired(arrival: u64, now: u64, ttl: u64) -> bool {
    arrival + ttl < now
}

/// Whether the arrival times never decrease from the oldest entry to the newest.
pub open spec fn sorted(entries: Entries) -> bool {
    forall|i: int, j: int| 0 <= i <= j < entries.len() ==> entries[i].1 <= entries[j].1
}

/// Number of entries at the front that are expired at `now`.
pub open spec fn expired_prefix(entries: Entries, now: u64, ttl: u64) -> nat
    decreases entries.len(),
{
    if entries.len() == 0 || !expired(entries[0].1, now, ttl) {
        0
    } else {
        1 + expired_prefix(entries.drop_first(), now, ttl)
    }
}

/// The entries that stay when the expired ones are dropped from the front.
pub open spec fn after_eviction(entries: Entries, now: u64, ttl: u64) -> Entries {
    entries.skip(expired_prefix(entries, now, ttl) as int)
}

/// Whether `message_id` is among the entries.
pub open spec fn holds(entries: Entries, message_id: Seq<char>) -> bool {
    exists|i: int| 0 <= i < entries.len() && (#[trigger] entries[i]).0 == message_id
}

/// The time under which an identifier that arrives at `now` is filed: `now`, or the arrival time
/// of the newest entry where the clock has fallen behind it.
pub open spec fn filing_time(entries: Entries, now: u64) -> u64 {
    if entries.len() > 0 && entries.last().1 > now {
        entries.last().1
    } else {
        now
    }
}

/// The entries after `message_id` was added at `now` to a cache of `capacity` entries: a cache
/// without capacity stays empty, a full one gives up its oldest entry.
pub open spec fn after_insert(
    entries: Entries,
    message_id: Seq<char>,
    now: u64,
    capacity: usize,
) -> Entries {
    if capacity == 0 {
        entries
    } else {
        let kept = if entries.len() >= capacity {
            entries.drop_first()
        } else {
            entries
        };
        kept.push((message_id, filing_time(kept, now)))
    }
}

/// The expired entries form a prefix no longer than the sequence.
pub proof fn lemma_expired_prefix(entries: Entries, now: u64, ttl: u64)
    ensures
        expired_prefix(entries, now, ttl) <= entries.len(),
        forall|i: int|
            0 <= i < expired_prefix(entries, now, ttl) ==> expired(
                (#[trigger] entries[i]).1,
                now,
                ttl,
            ),
        expired_prefix(entries, now, ttl) < entries.len() ==> !expired(
            entries[expired_prefix(entries, now, ttl) as int].1,
            now,
            ttl,
        ),
    decreases entries.len(),
{
    if entries.len() > 0 && expired(entries[0].1, now, ttl) {
        let rest = entries.drop_first();
        lemma_expired_prefix(rest, now, ttl);
        let k = expired_prefix(rest, now, ttl);
        assert forall|i: int| 0 <= i < k + 1 implies expired((#[trigger] entries[i]).1, now, ttl) by {
            if i > 0 {
                assert(entries[i] == rest[i - 1]);
            }
        }
        if k + 1 < entries.len() {
            assert(entries[k as int + 1] == rest[k as int]);
        }
    }
}

/// After eviction at `now`, a cache whose arrival times are sorted holds no entry that is
/// older than `ttl`.
pub proof fn lemma_eviction_leaves_fresh(entries: Entries, now: u64, ttl: u64)
    requires
        sorted(entries),
    ensures
        sorted(after_eviction(entries, now, ttl)),
        after_eviction(entries, now, ttl).len() <= entries.len(),
        forall|i: int|
            0 <= i < after_eviction(entries, now, ttl).len() ==> !expired(
                (#[trigger] after_eviction(entries, now, ttl)[i]).1,
                now,
                ttl,
            ),
{
    lemma_expired_prefix(entries, now, ttl);
    let k = expired_prefix(entries, now, ttl) as int;
    let rest = after_eviction(entries, now, ttl);
    assert forall|i: int| 0 <= i < rest.len() implies !expired((#[trigger] rest[i]).1, now, ttl) by {
        assert(rest[i] == entries[k + i]);
        assert(entries[k].1 <= entries[k + i].1);
    }
    assert forall|i: int, j: int| 0 <= i <= j < rest.len() implies rest[i].1 <= rest[j].1 by {
        assert(rest[i] == entries[k + i]);
        assert(rest[j] == entries[k + j]);
    }
}

/// Adding an identifier keeps the arrival times sorted and the cache within its capacity, and
/// the identifier is in the cache afterwards unless the cache has no capacity.
pub proof fn lemma_insert_keeps_order(
    entries: Entries,
    message_id: Seq<char>,
    now: u64,
    capacity: usize,
)
    requires
        sorted(entries),
        entries.len() <= capacity,
    ensures
        sorted(after_insert(entries, message_id, now, capacity)),
        after_insert(entries, message_id, now, capacity).len() <= capacity,
        capacity > 0 ==> holds(after_insert(entries, message_id, now, capacity), message_id),
{
    if capacity > 0 {
        let kept = if entries.len() >= capacity {
            entries.drop_first()
        } else {
            entries
        };
        let stamp = filing_time(kept, now);
        let next = kept.push((message_id, stamp));
        assert forall|i: int, j: int| 0 <= i <= j < next.len() implies next[i].1 <= next[j].1 by {
            if entries.len() >= capacity {
                if i < kept.len() {
                    assert(kept[i] == entries[i + 1]);
                }
                if j < kept.len() {
                    assert(kept[j] == entries[j + 1]);
                }
                if kept.len() > 0 {
                    assert(kept.last() == entries[kept.len() as int]);
                }
            }
            if j == kept.len() && i < kept.len() {
                assert(kept[i].1 <= kept.last().1);
            }
        }
        assert(next[kept.len() as int].0 == message_id);
    }
}

/// A bounded first-in-first-out cache of message identifiers.
pub struct MessageQueue {
    max_size: usize,
    ttl_millis: u64,
    messages: VecDeque<SeenEntry>,
    origin: Instant,
}

impl MessageQueue {
    /// What the cache holds, oldest first.
    pub closed spec fn entries(&self) -> Entries {
        self.messages@.map_values(|e: SeenEntry| (e.message_id@, e.arrival))
    }

    /// Largest number of identifiers that the cache holds.
    pub closed spec fn capacity(&self) -> usize {
        self.max_size
    }

    /// Time in milliseconds for which an identifier is remembered.
    pub closed spec fn ttl(&self) -> u64 {
        self.ttl_millis
    }

    /// The invariant of the type: the cache is within its capacity and arrival times are sorted.
    pub closed spec fn wf(&self) -> bool {
        &&& self.entries().len() <= self.max_size
        &&& sorted(self.entries())
    }

    /// Within the invariant the cache holds no more identifiers than its capacity, and they
    /// stand in the order of their arrival.
    pub proof fn lemma_wf(&self)
        requires
            self.wf(),
        ensures
            self.entries().len() <= self.capacity(),
            sorted(self.entries()),
    {
    }

    /// An empty cache of at most `max_size` identifiers that remembers each for five minutes.
    pub fn new(max_size: usize) -> (queue: MessageQueue)
        ensures
            queue.wf(),
            queue.capacity() == max_size,
            queue.ttl() == DEFAULT_TTL_MILLIS,
            queue.entries() == Entries::empty(),
    {
        Self::with_ttl(max_size, DEFAULT_TTL_MILLIS)
    }

    /// An empty cache of at most `max_size` identifiers that remembers each for `ttl_millis`.
    pub fn with_ttl(max_size: usize, ttl_millis: u64) -> (queue: MessageQueue)
        ensures
            queue.wf(),
            queue.capacity() == max_size,
            queue.ttl() == ttl_millis,
            queue.entries() == Entries::empty(),
    {
        let queue = MessageQueue {
            max_size,
            ttl_millis,
            messages: VecDeque::new(),
            origin: instant_now(),
        };
        assert(queue.entries() =~= Entries::empty());
        queue
    }

    /// Number of identifiers in the cache.
    pub fn len(&self) -> (n: usize)
        ensures
            n == self.entries().len(),
    {
        self.messages.len()
    }

    /// Milliseconds on the cache's own clock, which starts when the cache is made.
    pub fn clock_millis(&self) -> (now: u64) {
        elapsed_millis(&self.origin)
    }

    /// Drops the entries that are expired at `now`, then tells whether `message_id` is in the
    /// cache.
    pub fn has_seen_at(&mut self, message_id: &str, now: u64) -> (found: bool)
        requires
            old(self).wf(),
        ensures
            final(self).wf(),
            final(self).capacity() == old(self).capacity(),
            final(self).ttl() == old(self).ttl(),
            final(self).entries() == after_eviction(old(self).entries(), now, old(self).ttl()),
            forall|i: int|
                0 <= i < final(self).entries().len() ==> !expired(
                    (#[trigger] final(self).entries()[i]).1,
                    now,
                    final(self).ttl(),
                ),
            found == holds(final(self).entries(), message_id@),
    {
        let ghost start = self.entries();
        let ttl = self.ttl_millis;
        let total = self.messages.len();
        assert(start.len() == total);
        assert(start.skip(0) =~= start);
        let mut dropped: usize = 0;
        loop
            invariant_except_break
                start.len() == total,
                self.max_size == old(self).max_size,
                self.ttl_millis == ttl,
                ttl == old(self).ttl_millis,
                start == old(self).entries(),
                dropped <= start.len(),
                self.entries() == start.skip(dropped as int),
                forall|i: int| 0 <= i < dropped ==> expired((#[trigger] start[i]).1, now, ttl),
                expired_prefix(start, now, ttl) == dropped + expired_prefix(
                    start.skip(dropped as int),
                    now,
                    ttl,
                ),
            ensures
                self.max_size == old(self).max_size,
                self.ttl_millis == old(self).ttl_millis,
                self.entries() == after_eviction(start, now, ttl),
            decreases start.len() - dropped,
        {
            if self.messages.len() == 0 {
                break ;
            }
            let arrival = self.messages[0].arrival;
            assert(self.entries()[0].1 == arrival);
            if now >= arrival && now - arrival > ttl {
                let ghost rest = start.skip(dropped as int);
                self.messages.pop_front();
                proof {
                    assert(self.entries() =~= rest.drop_first());
                    assert(rest.drop_first() =~= start.skip(dropped as int + 1));
                    assert(start[dropped as int] == rest[0]);
                }
                dropped = dropped + 1;
            } else {
                break ;
            }
        }
        proof {
            lemma_eviction_leaves_fresh(start, now, ttl);
        }
        let wanted = String::from_str(message_id);
        let mut i: usize = 0;
        while i < self.messages.len()
            invariant
                i <= self.messages@.len(),
                wanted@ == message_id@,
                self.wf(),
                self.max_size == old(self).max_size,
                self.ttl_millis == old(self).ttl_millis,
                self.entries() == after_eviction(old(self).entries(), now, old(self).ttl_millis),
                forall|k: int|
                    0 <= k < self.entries().len() ==> !expired(
                        (#[trigger] self.entries()[k]).1,
                        now,
                        self.ttl_millis,
                    ),
                forall|j: int| 0 <= j < i ==> (#[trigger] self.entries()[j]).0 != message_id@,
            decreases self.messages@.len() - i,
        {
            if self.messages[i].message_id == wanted {
                assert(self.entries()[i as int].0 == message_id@);
                return true;
            }
            i = i + 1;
        }
        false
    }

    /// Adds `message_id` as arrived at `now`, giving up the oldest entry where the cache is full.
    pub fn add_message_at(&mut self, message_id: String, now: u64)
        requires
            old(self).wf(),
        ensures
            final(self).wf(),
            final(self).capacity() == old(self).capacity(),
            final(self).ttl() == old(self).ttl(),
            final(self).entries() == after_insert(
                old(self).entries(),
                message_id@,
                now,
                old(self).capacity(),
            ),
    {
        proof {
            lemma_insert_keeps_order(self.entries(), message_id@, now, self.max_size);
        }
        if self.max_size == 0 {
            return ;
        }
        if self.messages.len() >= self.max_size {
            self.messages.pop_front();
            assert(self.entries() =~= old(self).entries().drop_first());
        }
        let ghost kept = self.entries();
        let n = self.messages.len();
        let mut stamp = now;
        if n > 0 {
            let newest = self.messages[n - 1].arrival;
            assert(kept.last().1 == newest);
            if newest > now {
                stamp = newest;
            }
        }
        self.messages.push_back(SeenEntry { message_id, arrival: stamp });
        assert(self.entries() =~= kept.push((message_id@, stamp)));
    }

    /// Drops the entries that have expired by the cache's clock, then tells whether
    /// `message_id` is in the cache.
    pub fn has_seen(&mut self, message_id: &str) -> (found: bool)
        requires
            old(self).wf(),
        ensures
            final(self).wf(),
            final(self).capacity() == old(self).capacity(),
            final(self).ttl() == old(self).ttl(),
            exists|now: u64|
                final(self).entries() == #[trigger] after_eviction(
                    old(self).entries(),
                    now,
                    old(self).ttl(),
                ),
            found == holds(final(self).entries(), message_id@),
    {
        let now = self.clock_millis();
        self.has_seen_at(message_id, now)
    }

    /// Adds `message_id` as arrived at the present reading of the cache's clock.
    pub fn add_message(&mut self, message_id: String)
        requires
            old(self).wf(),
        ensures
            final(self).wf(),
            final(self).capacity() == old(self).capacity(),
            final(self).ttl() == old(self).ttl(),
            exists|now: u64|
                final(self).entries() == #[trigger] after_insert(
                    old(self).entries(),
                    message_id@,
                    now,
                    old(self).capacity(),
                ),
    {
        let now = self.clock_millis();
        self.add_message_at(message_id, now)
    }
}

} // verus!
