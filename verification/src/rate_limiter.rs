//! The rate limiter of the friend relay: a message budget for every epoch and a guard against
//! the reuse of nullifiers.
//!
//! The limiter remembers the nullifiers of the current epoch and of the three before it, each
//! epoch in a bucket of its own. A message is accepted if its epoch is one of those, its
//! nullifier is not in the bucket, and the bucket holds fewer nullifiers than the budget. A
//! message of an older epoch is refused: its bucket is gone and must not be filled again. So
//! no epoch ever has more accepted messages than the budget, in whatever order messages come.

use crate::text::{decimal_chars, decimal_string};
use std::collections::HashMap;
use vstd::prelude::*;
use vstd::string::*;

verus! {

/// A value of 32 bytes: a nullifier or a signal hash.
#[derive(Debug, Clone, Copy)]
pub struct Bytes32(pub [u8; 32]);

impl View for Bytes32 {
    type V = Seq<u8>;

    open spec fn view(&self) -> Seq<u8> {
        self.0@
    }
}

impl Bytes32 {
    /// Whether the two values hold the same bytes.
    pub fn same(&self, other: &Bytes32) -> (equal: bool)
        ensures
            equal == (self@ == other@),
    {
        let mut i: usize = 0;
        while i < 32
            invariant
                i <= 32,
                forall|j: int| 0 <= j < i ==> self@[j] == other@[j],
            decreases 32 - i,
        {
            if self.0[i] != other.0[i] {
                return false;
            }
            i = i + 1;
        }
        assert(self@ =~= other@);
        true
    }

    /// The value made of the first 32 bytes of `bytes`, if there are exactly 32.
    pub fn from_slice(bytes: &Vec<u8>) -> (value: Option<Bytes32>)
        ensures
            bytes@.len() == 32 ==> (value matches Some(v) && v@ == bytes@),
            bytes@.len() != 32 ==> value is None,
    {
        if bytes.len() != 32 {
            return None;
        }
        let mut out: [u8; 32] = [0u8; 32];
        let mut i: usize = 0;
        while i < 32
            invariant
                i <= 32,
                bytes@.len() == 32,
                forall|j: int| 0 <= j < i ==> out@[j] == bytes@[j],
            decreases 32 - i,
        {
            out[i] = bytes[i];
            i = i + 1;
        }
        let value = Bytes32(out);
        assert(value@ =~= bytes@);
        Some(value)
    }

    /// The bytes as a vector.
    pub fn to_vec(&self) -> (bytes: Vec<u8>)
        ensures
            bytes@ == self@,
    {
        let mut bytes: Vec<u8> = Vec::new();
        let mut i: usize = 0;
        while i < 32
            invariant
                i <= 32,
                bytes@.len() == i,
                forall|j: int| 0 <= j < i ==> bytes@[j] == self@[j],
            decreases 32 - i,
        {
            bytes.push(self.0[i]);
            i = i + 1;
        }
        assert(bytes@ =~= self@);
        bytes
    }
}

/// The views of the nullifiers of a bucket.
pub open spec fn nullifier_views(nullifiers: Seq<Bytes32>) -> Seq<Seq<u8>> {
    nullifiers.map_values(|n: Bytes32| n@)
}

/// The oldest epoch whose nullifiers are kept once `epoch` is the current one.
pub open spec fn window_start(epoch: u64) -> u64 {
    if epoch >= 3 {
        (epoch - 3) as u64
    } else {
        0
    }
}

/// The message of the rejection of a nullifier that was used before in `epoch`.
pub open spec fn reuse_message(epoch: u64) -> Seq<char> {
    "Nullifier already used in epoch "@ + decimal_chars(epoch as nat)
}

/// The message of the rejection of a message of an epoch whose budget is spent: `count`
/// messages of `epoch` were accepted, and `limit` are allowed.
pub open spec fn exceeded_message(count: nat, limit: u32, epoch: u64) -> Seq<char> {
    "Rate limit exceeded: "@ + decimal_chars(count) + "/"@ + decimal_chars(limit as nat)
        + " messages in epoch "@ + decimal_chars(epoch as nat)
}

/// The message of the rejection of a message of `epoch` that comes after the nullifiers of
/// that epoch were forgotten: the oldest epoch that is still remembered is `start`.
pub open spec fn stale_message(epoch: u64, start: u64) -> Seq<char> {
    "Epoch "@ + decimal_chars(epoch as nat) + " is older than the oldest epoch remembered, "@
        + decimal_chars(start as nat)
}

/// One judgement of a limiter: the epoch of the message and whether it was accepted.
pub struct Judgement {
    pub epoch: u64,
    pub accepted: bool,
}

/// The current epoch of a limiter after the judgements of `history`: the latest epoch of any
/// message, accepted or not.
pub open spec fn epoch_after_history(history: Seq<Judgement>) -> u64
    decreases history.len(),
{
    if history.len() == 0 {
        0
    } else {
        let before = epoch_after_history(history.drop_last());
        if history.last().epoch > before {
            history.last().epoch
        } else {
            before
        }
    }
}

/// Number of the messages of `history` that were of `epoch` and accepted.
pub open spec fn accepted_in(history: Seq<Judgement>, epoch: u64) -> nat
    decreases history.len(),
{
    if history.len() == 0 {
        0
    } else {
        accepted_in(history.drop_last(), epoch) + if history.last().epoch == epoch
            && history.last().accepted {
            1nat
        } else {
            0nat
        }
    }
}

/// One more judgement adds one to the accepted messages of its epoch if it accepts, and
/// changes nothing else.
pub proof fn lemma_accepted_in_push(history: Seq<Judgement>, last: Judgement, epoch: u64)
    ensures
        accepted_in(history.push(last), epoch) == accepted_in(history, epoch) + if last.epoch
            == epoch && last.accepted {
            1nat
        } else {
            0nat
        },
        epoch_after_history(history.push(last)) == if last.epoch > epoch_after_history(history) {
            last.epoch
        } else {
            epoch_after_history(history)
        },
{
    assert(history.push(last).drop_last() =~= history);
}

/// Counts the messages of the current epoch and remembers the nullifiers of the last epochs,
/// each epoch in a bucket of its own.
pub struct RateLimiter {
    rate_limit_per_epoch: u32,
    current_epoch: u64,
    message_count: u32,
    buckets: HashMap<u64, Vec<Bytes32>>,
    history: Ghost<Seq<Judgement>>,
}

impl RateLimiter {
    /// Messages allowed per epoch.
    pub closed spec fn limit(&self) -> u32 {
        self.rate_limit_per_epoch
    }

    /// The highest epoch observed so far.
    pub closed spec fn epoch(&self) -> u64 {
        self.current_epoch
    }

    /// Messages accepted for the current epoch.
    pub closed spec fn count(&self) -> u32 {
        self.message_count
    }

    /// Every judgement that the limiter has made, oldest first.
    pub closed spec fn history(&self) -> Seq<Judgement> {
        self.history@
    }

    /// The nullifiers accepted for `epoch` that are still remembered, oldest first.
    pub closed spec fn seen(&self, epoch: u64) -> Seq<Seq<u8>> {
        Self::seen_in(self.buckets@, epoch)
    }

    spec fn seen_in(buckets: Map<u64, Vec<Bytes32>>, epoch: u64) -> Seq<Seq<u8>> {
        if buckets.contains_key(epoch) {
            nullifier_views(buckets[epoch]@)
        } else {
            Seq::empty()
        }
    }

    /// The invariant of the type. No bucket is of an epoch before the oldest that is
    /// remembered or after the current one; no bucket holds a nullifier twice or more
    /// nullifiers than the budget; the count is the number of nullifiers of the current
    /// epoch. Of the history: the current epoch is the latest that any message had, no epoch
    /// has more accepted messages than the budget, and the accepted messages of an epoch that
    /// is still remembered are as many as its nullifiers.
    pub closed spec fn wf(&self) -> bool {
        &&& forall|e: u64| #[trigger]
            self.buckets@.contains_key(e) ==> window_start(self.current_epoch) <= e
                <= self.current_epoch
        &&& forall|e: u64| #[trigger]
            self.buckets@.contains_key(e) ==> nullifier_views(self.buckets@[e]@).no_duplicates()
        &&& forall|e: u64| #[trigger]
            self.buckets@.contains_key(e) ==> self.buckets@[e]@.len() <= self.rate_limit_per_epoch
        &&& self.message_count == self.seen(self.current_epoch).len()
        &&& self.current_epoch == epoch_after_history(self.history@)
        &&& forall|e: u64| #[trigger] accepted_in(self.history@, e) <= self.rate_limit_per_epoch
        &&& forall|e: u64|
            e >= window_start(self.current_epoch) ==> #[trigger] accepted_in(self.history@, e)
                == self.seen(e).len()
    }

    /// Within the invariant, of every epoch: no more messages of the epoch were ever accepted
    /// than the budget allows; no nullifier is remembered twice for it, and no more
    /// nullifiers than the budget; nothing is remembered for it if it lies after the current
    /// epoch or before the oldest that is remembered; and as long as it is remembered, its
    /// nullifiers are as many as its accepted messages.
    pub proof fn lemma_wf(&self, epoch: u64)
        requires
            self.wf(),
        ensures
            accepted_in(self.history(), epoch) <= self.limit(),
            self.seen(epoch).no_duplicates(),
            self.seen(epoch).len() <= self.limit(),
            epoch > self.epoch() || epoch < window_start(self.epoch()) ==> self.seen(epoch)
                == Seq::<Seq<u8>>::empty(),
            epoch >= window_start(self.epoch()) ==> accepted_in(self.history(), epoch)
                == self.seen(epoch).len(),
            self.count() == self.seen(self.epoch()).len(),
            self.count() <= self.limit(),
            self.epoch() == epoch_after_history(self.history()),
    {
        assert(accepted_in(self.history@, epoch) <= self.rate_limit_per_epoch);
    }

    /// Whether the limiter is as new with the budget `limit`: at epoch 0, with nothing
    /// counted, remembered or judged.
    pub open spec fn is_unused(&self, limit: u32) -> bool {
        &&& self.limit() == limit
        &&& self.epoch() == 0
        &&& self.count() == 0
        &&& self.history() == Seq::<Judgement>::empty()
        &&& forall|e: u64| #[trigger] self.seen(e) == Seq::<Seq<u8>>::empty()
    }

    /// A limiter that allows `rate_limit_per_epoch` messages per epoch, at epoch 0 with nothing
    /// counted or remembered.
    pub fn new(rate_limit_per_epoch: u32) -> (limiter: RateLimiter)
        ensures
            limiter.wf(),
            limiter.is_unused(rate_limit_per_epoch),
            limiter.limit() == rate_limit_per_epoch,
            limiter.epoch() == 0,
            limiter.count() == 0,
            limiter.history() == Seq::<Judgement>::empty(),
            forall|e: u64| limiter.seen(e) == Seq::<Seq<u8>>::empty(),
    {
        RateLimiter {
            rate_limit_per_epoch,
            current_epoch: 0,
            message_count: 0,
            buckets: HashMap::new(),
            history: Ghost(Seq::empty()),
        }
    }

    /// The current epoch, the messages counted in it and the budget.
    pub fn get_stats(&self) -> (stats: (u64, u32, u32))
        ensures
            stats == (self.epoch(), self.count(), self.limit()),
    {
        (self.current_epoch, self.message_count, self.rate_limit_per_epoch)
    }

    /// Drops the buckets of epochs before `start`. No bucket is older than the oldest epoch
    /// remembered, so it is enough to look at the current epoch and the three before it.
    fn evict_before(&mut self, start: u64)
        requires
            forall|e: u64| #[trigger]
                old(self).buckets@.contains_key(e) ==> window_start(old(self).current_epoch) <= e
                    <= old(self).current_epoch,
        ensures
            final(self).rate_limit_per_epoch == old(self).rate_limit_per_epoch,
            final(self).current_epoch == old(self).current_epoch,
            final(self).message_count == old(self).message_count,
            final(self).history@ == old(self).history@,
            forall|e: u64| #[trigger]
                final(self).buckets@.contains_key(e) <==> old(self).buckets@.contains_key(e) && e
                    >= start,
            forall|e: u64| #[trigger]
                final(self).buckets@.contains_key(e) ==> final(self).buckets@[e] == old(
                    self
                ).buckets@[e],
    {
        let mut back: u64 = 0;
        while back < 4
            invariant
                back <= 4,
                self.rate_limit_per_epoch == old(self).rate_limit_per_epoch,
                self.current_epoch == old(self).current_epoch,
                self.message_count == old(self).message_count,
                self.history@ == old(self).history@,
                forall|e: u64| #[trigger]
                    old(self).buckets@.contains_key(e) ==> window_start(old(self).current_epoch)
                        <= e <= old(self).current_epoch,
                forall|e: u64| #[trigger]
                    self.buckets@.contains_key(e) ==> old(self).buckets@.contains_key(e)
                        && self.buckets@[e] == old(self).buckets@[e],
                forall|e: u64| #[trigger]
                    old(self).buckets@.contains_key(e) && (e >= start || self.current_epoch - e
                        >= back) ==> self.buckets@.contains_key(e),
                forall|e: u64| #[trigger]
                    self.buckets@.contains_key(e) && e < start ==> self.current_epoch - e >= back,
            decreases 4 - back,
        {
            if self.current_epoch >= back {
                let at = self.current_epoch - back;
                if at < start {
                    self.buckets.remove(&at);
                }
            }
            back = back + 1;
        }
    }

    /// Whether `nullifier` is among `list`.
    fn holds(list: &Vec<Bytes32>, nullifier: &Bytes32) -> (found: bool)
        ensures
            found == nullifier_views(list@).contains(nullifier@),
    {
        let ghost views = nullifier_views(list@);
        let mut i: usize = 0;
        while i < list.len()
            invariant
                i <= list.len(),
                views == nullifier_views(list@),
                forall|j: int| 0 <= j < i ==> views[j] != nullifier@,
            decreases list.len() - i,
        {
            if list[i].same(nullifier) {
                assert(views[i as int] == nullifier@);
                return true;
            }
            i = i + 1;
        }
        false
    }

    /// The epoch that is current once `epoch` has been observed.
    pub open spec fn epoch_after(&self, epoch: u64) -> u64 {
        if epoch > self.epoch() {
            epoch
        } else {
            self.epoch()
        }
    }

    /// What is remembered for `e` before the message of `epoch` is judged: where `epoch` is new,
    /// the epochs more than three before it are forgotten.
    pub open spec fn seen_before(&self, epoch: u64, e: u64) -> Seq<Seq<u8>> {
        if epoch > self.epoch() && e < window_start(epoch) {
            Seq::empty()
        } else {
            self.seen(e)
        }
    }

    /// Number of the messages of `epoch` that are accepted and remembered when the next
    /// message of `epoch` is judged.
    pub open spec fn held(&self, epoch: u64) -> nat {
        self.seen_before(epoch, epoch).len()
    }

    /// Whether a message of `epoch` is refused because it comes too late: the nullifiers of
    /// its epoch are forgotten.
    pub open spec fn is_stale(&self, epoch: u64) -> bool {
        epoch < window_start(self.epoch())
    }

    /// Whether a message of `epoch` with `nullifier` is refused because the nullifier was used.
    pub open spec fn is_reuse(&self, epoch: u64, nullifier: Seq<u8>) -> bool {
        self.seen_before(epoch, epoch).contains(nullifier)
    }

    /// Whether a message of `epoch` is refused because the budget of its epoch is spent.
    pub open spec fn is_over_budget(&self, epoch: u64) -> bool {
        self.held(epoch) >= self.limit()
    }

    /// Whether a message of `epoch` with `nullifier` is accepted: it does not come too late,
    /// its nullifier was not used in its epoch, and the budget of its epoch is not spent.
    pub open spec fn accepts(&self, epoch: u64, nullifier: Seq<u8>) -> bool {
        !self.is_stale(epoch) && !self.is_reuse(epoch, nullifier) && !self.is_over_budget(epoch)
    }

    /// Whether `self` is `before` after a message of `epoch` with `nullifier` was judged, and
    /// accepted or refused as `accepted` says: the epoch moves on if the message is of a later
    /// one, the verdict joins the history, the nullifier of an accepted message is
    /// remembered, and the count is the number of nullifiers of the current epoch.
    pub open spec fn is_judged_from(
        &self,
        before: Self,
        epoch: u64,
        nullifier: Seq<u8>,
        accepted: bool,
    ) -> bool {
        &&& self.limit() == before.limit()
        &&& self.epoch() == before.epoch_after(epoch)
        &&& self.history() == before.history().push(Judgement { epoch, accepted })
        &&& self.count() == self.seen(self.epoch()).len()
        &&& forall|e: u64| #[trigger]
            self.seen(e) == if accepted && e == epoch {
                before.seen_before(epoch, e).push(nullifier)
            } else {
                before.seen_before(epoch, e)
            }
    }

    /// Judges a message of `epoch` that carries `nullifier`.
    ///
    /// An epoch later than the current one becomes the current one: the count starts again at
    /// zero and the nullifiers of epochs more than three before it are forgotten. The message
    /// is then refused if its epoch is one of those forgotten, else if its nullifier was
    /// accepted before for its epoch, and else if as many messages of its epoch were accepted
    /// as the budget allows. The nullifier of an accepted message is remembered for its
    /// epoch. So no epoch ever has more accepted messages than the budget.
    pub fn check_and_update(&mut self, epoch: u64, nullifier: Bytes32) -> (result: Result<
        (),
        String,
    >)
        requires
            old(self).wf(),
        ensures
            final(self).wf(),
            final(self).is_judged_from(*old(self), epoch, nullifier@, result is Ok),
            result is Ok <==> old(self).accepts(epoch, nullifier@),
            result is Ok ==> accepted_in(old(self).history(), epoch) < old(self).limit(),
            old(self).is_stale(epoch) ==> (result matches Err(m) && m@ == stale_message(
                epoch,
                window_start(old(self).epoch()),
            )),
            !old(self).is_stale(epoch) && old(self).is_reuse(epoch, nullifier@) ==> (
            result matches Err(m) && m@ == reuse_message(epoch)),
            !old(self).is_stale(epoch) && !old(self).is_reuse(epoch, nullifier@) && old(
                self
            ).is_over_budget(epoch) ==> (result matches Err(m) && m@ == exceeded_message(
                old(self).held(epoch),
                old(self).limit(),
                epoch,
            )),
            final(self).limit() == old(self).limit(),
            final(self).epoch() == old(self).epoch_after(epoch),
            final(self).history() == old(self).history().push(
                Judgement { epoch, accepted: result is Ok },
            ),
    {
        let ghost past = old(self).history@;
        if epoch > self.current_epoch {
            let start: u64 = if epoch >= 3 {
                epoch - 3
            } else {
                0
            };
            self.evict_before(start);
            self.current_epoch = epoch;
            self.message_count = 0;
            proof {
                assert(start == window_start(epoch));
                assert(!old(self).buckets@.contains_key(epoch));
                assert(!self.buckets@.contains_key(epoch));
            }
        }
        let ghost mid = *self;
        let ghost refused = past.push(Judgement { epoch, accepted: false });
        let ghost granted = past.push(Judgement { epoch, accepted: true });
        proof {
            assert forall|e: u64| mid.seen(e) == old(self).seen_before(epoch, e) by {
                if mid.buckets@.contains_key(e) {
                    assert(old(self).buckets@.contains_key(e));
                }
            }
            assert(mid.current_epoch == old(self).epoch_after(epoch));
            assert(window_start(old(self).current_epoch) <= window_start(mid.current_epoch));
            assert forall|e: u64| e >= window_start(mid.current_epoch) implies accepted_in(past, e)
                == mid.seen(e).len() by {
                assert(accepted_in(old(self).history@, e) == old(self).seen(e).len());
            }
            assert forall|e: u64| accepted_in(refused, e) == accepted_in(past, e) by {
                lemma_accepted_in_push(past, Judgement { epoch, accepted: false }, e);
            }
            assert forall|e: u64|
                accepted_in(granted, e) == accepted_in(past, e) + if e == epoch {
                    1nat
                } else {
                    0nat
                } by {
                lemma_accepted_in_push(past, Judgement { epoch, accepted: true }, e);
            }
            lemma_accepted_in_push(past, Judgement { epoch, accepted: false }, epoch);
            lemma_accepted_in_push(past, Judgement { epoch, accepted: true }, epoch);
            assert(epoch_after_history(refused) == mid.current_epoch);
            assert(epoch_after_history(granted) == mid.current_epoch);
            assert forall|e: u64| #[trigger]
                mid.buckets@.contains_key(e) implies window_start(mid.current_epoch) <= e
                <= mid.current_epoch by {
                assert(old(self).buckets@.contains_key(e));
            }
            assert forall|e: u64| #[trigger] mid.buckets@.contains_key(e) implies nullifier_views(
                mid.buckets@[e]@,
            ).no_duplicates() && mid.buckets@[e]@.len() <= mid.rate_limit_per_epoch by {
                assert(old(self).buckets@.contains_key(e));
            }
            assert(mid.message_count == mid.seen(mid.current_epoch).len());
        }
        let start: u64 = if self.current_epoch >= 3 {
            self.current_epoch - 3
        } else {
            0
        };
        if epoch < start {
            let mut text = String::from_str("Epoch ");
            text.append(decimal_string(epoch).as_str());
            text.append(" is older than the oldest epoch remembered, ");
            text.append(decimal_string(start).as_str());
            self.history = Ghost(refused);
            proof {
                assert forall|e: u64| self.seen(e) == old(self).seen_before(epoch, e) by {
                    assert(self.seen(e) == mid.seen(e));
                }
            }
            return Err(text);
        }
        let (used, held): (bool, usize) = match self.buckets.get(&epoch) {
            Some(list) => (Self::holds(list, &nullifier), list.len()),
            None => (false, 0),
        };
        assert(used == self.seen(epoch).contains(nullifier@));
        assert(held == self.seen(epoch).len());
        if used {
            let mut text = String::from_str("Nullifier already used in epoch ");
            text.append(decimal_string(epoch).as_str());
            self.history = Ghost(refused);
            proof {
                assert forall|e: u64| self.seen(e) == old(self).seen_before(epoch, e) by {
                    assert(self.seen(e) == mid.seen(e));
                }
            }
            return Err(text);
        }
        if held >= self.rate_limit_per_epoch as usize {
            let mut text = String::from_str("Rate limit exceeded: ");
            text.append(decimal_string(held as u64).as_str());
            text.append("/");
            text.append(decimal_string(self.rate_limit_per_epoch as u64).as_str());
            text.append(" messages in epoch ");
            text.append(decimal_string(epoch).as_str());
            self.history = Ghost(refused);
            proof {
                assert forall|e: u64| self.seen(e) == old(self).seen_before(epoch, e) by {
                    assert(self.seen(e) == mid.seen(e));
                }
            }
            return Err(text);
        }
        if epoch == self.current_epoch {
            self.message_count = self.message_count + 1;
        }
        self.history = Ghost(granted);
        let mut list = match self.buckets.remove(&epoch) {
            Some(list) => list,
            None => Vec::new(),
        };
        let ghost former = list@;
        list.push(nullifier);
        self.buckets.insert(epoch, list);
        proof {
            assert(nullifier_views(former) =~= mid.seen(epoch));
            assert(nullifier_views(self.buckets@[epoch]@) =~= mid.seen(epoch).push(nullifier@));
            assert forall|e: u64|
                self.seen(e) == if e == epoch {
                    old(self).seen_before(epoch, e).push(nullifier@)
                } else {
                    old(self).seen_before(epoch, e)
                } by {
                assert(mid.seen(e) == old(self).seen_before(epoch, e));
                if e != epoch {
                    assert(self.buckets@.contains_key(e) == mid.buckets@.contains_key(e));
                    if self.buckets@.contains_key(e) {
                        assert(self.buckets@[e] == mid.buckets@[e]);
                    }
                }
            }
            assert forall|e: u64| #[trigger]
                self.buckets@.contains_key(e) implies window_start(self.current_epoch) <= e
                <= self.current_epoch by {
                if e != epoch {
                    assert(mid.buckets@.contains_key(e));
                }
            }
            assert forall|e: u64| #[trigger] self.buckets@.contains_key(e) implies nullifier_views(
                self.buckets@[e]@,
            ).no_duplicates() && self.buckets@[e]@.len() <= self.rate_limit_per_epoch by {
                if e != epoch {
                    assert(mid.buckets@.contains_key(e));
                    assert(self.buckets@[e] == mid.buckets@[e]);
                }
            }
        }
        Ok(())
    }
}

} // verus!
