//! The friend relay: every attestation is proven, checked against the rate limit and pushed
//! to every friend, so that the node that made it cannot be told from the nodes that pass it on.

use crate::clock::{elapsed_millis, instant_now, wall_clock_nanos};
use crate::common::{FriendNodeConfig, StealthConfig, StealthError};
use crate::message_queue::{
    after_eviction, after_insert, holds, Entries, MessageQueue, DEFAULT_TTL_MILLIS,
};
use crate::messages::{
    anonymous_sender, ProvenMessage, ProvenMessageView, RelayMessage, RelayMessageView, RlnProof,
};
use crate::prng::{is_permutation, Prng};
use crate::rate_limiter::{Bytes32, RateLimiter};
use crate::text::{decimal_chars, decimal_string};
use crate::wire::{
    dec_envelope, decode_proven_message, enc_envelope, encode_proven_message,
    encode_relay_message, envelope_fits, lemma_envelope_round_trip,
};
use vstd::prelude::*;
use vstd::string::*;

verus! {

/// Commands that the relay takes.
#[derive(Debug)]
pub enum RelayCommand {
    /// Relay an attestation through the friends.
    RelayAttestation { attestation_data: Vec<u8>, subnet_id: u8 },
    /// Add a friend.
    AddFriend(FriendNodeConfig),
    /// Remove the friend with this identifier.
    RemoveFriend(String),
    /// Report the statistics.
    GetStats,
    /// Start the rate limiter anew with another budget.
    UpdateRln { rate_limit: u32, epoch: u64 },
    /// Stop the relay.
    Stop,
}

/// Events that the relay emits.
#[derive(Debug)]
pub enum RelayEvent {
    /// A message was pushed to `friends_count` friends.
    MessageRelayed { message_id: String, friends_count: usize, latency_ms: u64 },
    /// A message arrived from a friend.
    MessageReceived { message_id: String, from_friend: String },
    /// A friend was added.
    FriendConnected(String),
    /// A friend was removed.
    FriendDisconnected(String),
    /// A message was refused by the rate limiter.
    RateLimitExceeded { epoch: u64, attempts: u32, limit: u32 },
    /// Something went wrong.
    Error(String),
}

/// What an event says.
pub enum RelayEventView {
    MessageRelayed { message_id: Seq<char>, friends_count: usize, latency_ms: u64 },
    MessageReceived { message_id: Seq<char>, from_friend: Seq<char> },
    FriendConnected(Seq<char>),
    FriendDisconnected(Seq<char>),
    RateLimitExceeded { epoch: u64, attempts: u32, limit: u32 },
    Error(Seq<char>),
}

impl View for RelayEvent {
    type V = RelayEventView;

    open spec fn view(&self) -> RelayEventView {
        match self {
            RelayEvent::MessageRelayed {
                message_id,
                friends_count,
                latency_ms,
            } => RelayEventView::MessageRelayed {
                message_id: message_id@,
                friends_count: *friends_count,
                latency_ms: *latency_ms,
            },
            RelayEvent::MessageReceived {
                message_id,
                from_friend,
            } => RelayEventView::MessageReceived {
                message_id: message_id@,
                from_friend: from_friend@,
            },
            RelayEvent::FriendConnected(id) => RelayEventView::FriendConnected(id@),
            RelayEvent::FriendDisconnected(id) => RelayEventView::FriendDisconnected(id@),
            RelayEvent::RateLimitExceeded {
                epoch,
                attempts,
                limit,
            } => RelayEventView::RateLimitExceeded {
                epoch: *epoch,
                attempts: *attempts,
                limit: *limit,
            },
            RelayEvent::Error(message) => RelayEventView::Error(message@),
        }
    }
}

/// What a sequence of events says.
pub open spec fn relay_event_views(events: Seq<RelayEvent>) -> Seq<RelayEventView> {
    events.map_values(|e: RelayEvent| e@)
}

/// Counters of the relay.
#[derive(Debug, Clone, Copy, PartialEq, Eq, Structural)]
pub struct RelayStats {
    /// Messages pushed to at least one friend.
    pub messages_sent: u64,
    /// Messages accepted from friends.
    pub messages_received: u64,
    /// Friends on the books.
    pub friends_connected: usize,
    /// Sum of the latencies of the messages sent, in milliseconds.
    pub total_latency_ms: u64,
    /// Messages refused by the rate limiter.
    pub rate_limit_violations: u64,
    /// Messages from friends that were dropped.
    pub messages_dropped: u64,
    /// Pushes that a friend did not take.
    pub push_failures: u64,
}

/// `x + n`, or the largest number where the sum does not fit.
pub open spec fn capped_sum(x: u64, n: u64) -> u64 {
    if x + n <= u64::MAX {
        (x + n) as u64
    } else {
        u64::MAX
    }
}

/// Adds `n` to a counter that stays at its largest value once it is reached.
pub fn capped_add(x: u64, n: u64) -> (sum: u64)
    ensures
        sum == capped_sum(x, n),
{
    if n <= u64::MAX - x {
        x + n
    } else {
        u64::MAX
    }
}

impl RelayStats {
    /// Mean latency of the messages sent, in whole milliseconds; 0 where none was sent.
    pub fn average_latency_ms(&self) -> (mean: u64)
        ensures
            self.messages_sent == 0 ==> mean == 0,
            self.messages_sent > 0 ==> mean == self.total_latency_ms / self.messages_sent,
    {
        if self.messages_sent == 0 {
            0
        } else {
            self.total_latency_ms / self.messages_sent
        }
    }
}

/// Access to the proof engine and to the pub/sub transport. Every call can fail, and nothing
/// is assumed of what a provider answers.
pub trait WakuProvider {
    /// Makes a proof for `message` that is bound to `epoch`.
    fn generate_rln_proof(&self, message: &Vec<u8>, epoch: u64) -> Result<RlnProof, StealthError>;

    /// Tells whether `proof` is a valid proof for `message`.
    fn verify_rln_proof(&self, proof: &RlnProof, message: &Vec<u8>) -> Result<bool, StealthError>;

    /// Publishes `message` on `topic` and returns the identifier that the transport gave it.
    fn light_push(&self, topic: &str, message: &Vec<u8>, timestamp: Option<u64>) -> Result<
        String,
        StealthError,
    >;

    /// The present epoch of the proof engine.
    fn get_rln_epoch(&self) -> Result<u64, StealthError>;
}

/// The topic on which the messages of a subnet travel between friends.
pub open spec fn relay_topic_chars(subnet_id: u8) -> Seq<char> {
    "/privacy-relay/"@ + decimal_chars(subnet_id as nat)
}

/// The topic on which the messages of `subnet_id` travel between friends.
pub fn relay_topic(subnet_id: u8) -> (topic: String)
    ensures
        topic@ == relay_topic_chars(subnet_id),
{
    let mut topic = String::from_str("/privacy-relay/");
    topic.append(decimal_string(subnet_id as u64).as_str());
    topic
}

/// The identifier of a message made at `nanos` for `subnet_id`.
pub open spec fn message_id_chars(nanos: u64, subnet_id: u8) -> Seq<char> {
    decimal_chars(nanos as nat) + "_"@ + decimal_chars(subnet_id as nat)
}

/// The message that carries `attestation_data` of `subnet_id`, made at `nanos`. It names no
/// origin.
pub fn outbound_message(attestation_data: Vec<u8>, subnet_id: u8, nanos: u64) -> (message:
    RelayMessage)
    ensures
        message.message_id@ == message_id_chars(nanos, subnet_id),
        message.attestation_data == attestation_data,
        message.subnet_id == subnet_id,
        message.timestamp == nanos,
        message.origin_hint is None,
{
    let mut message_id = decimal_string(nanos);
    message_id.append("_");
    message_id.append(decimal_string(subnet_id as u64).as_str());
    RelayMessage { message_id, attestation_data, subnet_id, timestamp: nanos, origin_hint: None }
}

/// The envelope in which a message leaves this node: the message without any hint at its
/// origin, its proof, and the tag that names no sender.
pub fn seal(message: RelayMessage, rln_proof: RlnProof) -> (envelope: ProvenMessage)
    ensures
        envelope.message.message_id == message.message_id,
        envelope.message.attestation_data == message.attestation_data,
        envelope.message.subnet_id == message.subnet_id,
        envelope.message.timestamp == message.timestamp,
        envelope.message.origin_hint is None,
        envelope@.message.origin_hint is None,
        envelope.rln_proof == rln_proof,
        envelope.sender_id@ == anonymous_sender(),
{
    let RelayMessage { message_id, attestation_data, subnet_id, timestamp, origin_hint: _ } =
        message;
    ProvenMessage {
        message: RelayMessage {
            message_id,
            attestation_data,
            subnet_id,
            timestamp,
            origin_hint: None,
        },
        rln_proof,
        sender_id: String::from_str("stealth_sidecar"),
    }
}

/// What `message` and `rln_proof` say once they are sealed: the message without its hint at an
/// origin, the proof, and the tag that names no sender.
pub open spec fn sealed_view(message: RelayMessage, rln_proof: RlnProof) -> ProvenMessageView {
    ProvenMessageView {
        message: RelayMessageView { origin_hint: None, ..message@ },
        rln_proof: rln_proof@,
        sender_id: anonymous_sender(),
    }
}

/// The bytes in which a message leaves this node, or nothing where the sealed message does
/// not fit the wire format. Whoever reads the bytes finds the message and its proof, no hint
/// at an origin, and the tag that names no sender.
pub fn egress_bytes(message: RelayMessage, rln_proof: RlnProof) -> (bytes: Option<Vec<u8>>)
    ensures
        envelope_fits(sealed_view(message, rln_proof)) ==> (bytes matches Some(b) && b@
            == enc_envelope(sealed_view(message, rln_proof)) && dec_envelope(b@) == Some(
            sealed_view(message, rln_proof),
        )),
        !envelope_fits(sealed_view(message, rln_proof)) ==> bytes is None,
        bytes matches Some(b) ==> (dec_envelope(b@) matches Some(e) && e.message.origin_hint
            is None && e.sender_id == anonymous_sender()),
{
    let envelope = seal(message, rln_proof);
    proof {
        assert(envelope@ == sealed_view(message, rln_proof));
        if envelope_fits(envelope@) {
            lemma_envelope_round_trip(envelope@);
        }
    }
    encode_proven_message(&envelope)
}

/// Number of pushes that were delivered.
pub open spec fn delivered(results: Seq<bool>) -> nat
    decreases results.len(),
{
    if results.len() == 0 {
        0
    } else {
        delivered(results.drop_last()) + if results.last() {
            1nat
        } else {
            0nat
        }
    }
}

/// No more pushes are delivered than were made.
pub proof fn lemma_delivered_bound(results: Seq<bool>)
    ensures
        delivered(results) <= results.len(),
    decreases results.len(),
{
    if results.len() > 0 {
        lemma_delivered_bound(results.drop_last());
    }
}

/// Counts the pushes that were delivered.
pub fn count_delivered(results: &Vec<bool>) -> (n: usize)
    ensures
        n == delivered(results@),
        n <= results@.len(),
{
    let mut n: usize = 0;
    let mut i: usize = 0;
    while i < results.len()
        invariant
            i <= results.len(),
            n <= i,
            n == delivered(results@.take(i as int)),
        decreases results.len() - i,
    {
        proof {
            let next = results@.take(i as int + 1);
            assert(next.drop_last() =~= results@.take(i as int));
            assert(next.last() == results@[i as int]);
        }
        if results[i] {
            n = n + 1;
        }
        i = i + 1;
    }
    assert(results@.take(i as int) =~= results@);
    n
}

/// The identifiers of a list of friends.
pub open spec fn friend_ids(friends: Seq<FriendNodeConfig>) -> Seq<Seq<char>> {
    friends.map_values(|f: FriendNodeConfig| f.peer_id@)
}

/// Where the friend with the identifier `id` stands among friends of whom no two have the
/// same identifier.
pub proof fn lemma_friend_position(friends: Seq<FriendNodeConfig>, at: int)
    requires
        friend_ids(friends).no_duplicates(),
        0 <= at < friends.len(),
    ensures
        friend_ids(friends).contains(friends[at].peer_id@),
        friend_ids(friends).index_of(friends[at].peer_id@) == at,
{
    let ids = friend_ids(friends);
    assert(ids[at] == friends[at].peer_id@);
    let found = ids.index_of(friends[at].peer_id@);
    assert(0 <= found < ids.len() && ids[found] == ids[at]);
}

/// The friends once `friend` is enrolled: it takes the place of the friend with its
/// identifier, or the last place where there is none. The other friends stay as they are.
pub open spec fn with_friend(friends: Seq<FriendNodeConfig>, friend: FriendNodeConfig) -> Seq<
    FriendNodeConfig,
> {
    let ids = friend_ids(friends);
    if ids.contains(friend.peer_id@) {
        friends.update(ids.index_of(friend.peer_id@), friend)
    } else {
        friends.push(friend)
    }
}

/// The friends without the one with the identifier `peer_id`. The other friends stay as
/// they are, in their order.
pub open spec fn without_friend(friends: Seq<FriendNodeConfig>, peer_id: Seq<char>) -> Seq<
    FriendNodeConfig,
> {
    let ids = friend_ids(friends);
    if ids.contains(peer_id) {
        friends.remove(ids.index_of(peer_id))
    } else {
        friends
    }
}

/// The friends that a relay has once every friend of `list` was enrolled in turn.
pub open spec fn enrolled(list: Seq<FriendNodeConfig>) -> Seq<FriendNodeConfig>
    decreases list.len(),
{
    if list.len() == 0 {
        Seq::empty()
    } else {
        with_friend(enrolled(list.drop_last()), list.last())
    }
}

/// Of the friends that are enrolled from a list: no two have the same identifier, each is a
/// friend of the list, and of the friends of the list with one identifier the last is the
/// one enrolled.
pub proof fn lemma_enrolled(list: Seq<FriendNodeConfig>)
    ensures
        friend_ids(enrolled(list)).no_duplicates(),
        forall|i: int|
            0 <= i < enrolled(list).len() ==> list.contains(#[trigger] enrolled(list)[i]),
        forall|i: int|
            0 <= i < list.len() && (forall|j: int|
                i < j < list.len() ==> list[j].peer_id@ != list[i].peer_id@) ==> enrolled(
                list,
            ).contains(#[trigger] list[i]),
    decreases list.len(),
{
    if list.len() > 0 {
        let front = list.drop_last();
        let last = list.last();
        let was = enrolled(front);
        let now = enrolled(list);
        let ids = friend_ids(was);
        lemma_enrolled(front);
        assert(now == with_friend(was, last));
        if ids.contains(last.peer_id@) {
            let at = ids.index_of(last.peer_id@);
            assert(ids[at] == last.peer_id@);
            assert(now =~= was.update(at, last));
            assert(friend_ids(now) =~= ids);
            assert(now[at] == last);
            assert forall|i: int| 0 <= i < now.len() implies list.contains(#[trigger] now[i]) by {
                if i == at {
                    assert(list[list.len() - 1] == last);
                } else {
                    assert(now[i] == was[i]);
                    assert(front.contains(was[i]));
                    let k = choose|k: int| 0 <= k < front.len() && front[k] == was[i];
                    assert(list[k] == was[i]);
                }
            }
            assert forall|i: int|
                0 <= i < list.len() && (forall|j: int|
                    i < j < list.len() ==> list[j].peer_id@ != list[i].peer_id@) implies now.contains(
                #[trigger] list[i],
            ) by {
                if i == list.len() - 1 {
                    assert(now[at] == list[i]);
                } else {
                    assert(front[i] == list[i]);
                    assert forall|j: int| i < j < front.len() implies front[j].peer_id@
                        != front[i].peer_id@ by {
                        assert(front[j] == list[j]);
                    }
                    assert(was.contains(front[i]));
                    let k = choose|k: int| 0 <= k < was.len() && was[k] == front[i];
                    assert(list[list.len() - 1].peer_id@ != list[i].peer_id@);
                    assert(ids[k] == front[i].peer_id@);
                    assert(k != at);
                    assert(now[k] == list[i]);
                }
            }
        } else {
            assert(now =~= was.push(last));
            assert(friend_ids(now) =~= ids.push(last.peer_id@));
            assert forall|a: int, b: int|
                0 <= a < friend_ids(now).len() && 0 <= b < friend_ids(now).len() && a
                    != b implies friend_ids(now)[a] != friend_ids(now)[b] by {
                if a < ids.len() {
                    assert(ids.contains(ids[a]));
                }
                if b < ids.len() {
                    assert(ids.contains(ids[b]));
                }
            }
            assert forall|i: int| 0 <= i < now.len() implies list.contains(#[trigger] now[i]) by {
                if i == was.len() {
                    assert(list[list.len() - 1] == last);
                } else {
                    assert(now[i] == was[i]);
                    assert(front.contains(was[i]));
                    let k = choose|k: int| 0 <= k < front.len() && front[k] == was[i];
                    assert(list[k] == was[i]);
                }
            }
            assert forall|i: int|
                0 <= i < list.len() && (forall|j: int|
                    i < j < list.len() ==> list[j].peer_id@ != list[i].peer_id@) implies now.contains(
                #[trigger] list[i],
            ) by {
                if i == list.len() - 1 {
                    assert(now[was.len() as int] == list[i]);
                } else {
                    assert(front[i] == list[i]);
                    assert forall|j: int| i < j < front.len() implies front[j].peer_id@
                        != front[i].peer_id@ by {
                        assert(front[j] == list[j]);
                    }
                    assert(was.contains(front[i]));
                    let k = choose|k: int| 0 <= k < was.len() && was[k] == front[i];
                    assert(now[k] == list[i]);
                }
            }
        }
    }
}

/// A copy of a text.
fn copy_text(text: &String) -> (copy: String)
    ensures
        copy@ == text@,
{
    text.clone()
}

/// The friend relay.
pub struct FriendRelay<W: WakuProvider> {
    waku_provider: W,
    friends: Vec<FriendNodeConfig>,
    rate_limiter: RateLimiter,
    replay_guard: RateLimiter,
    message_queue: MessageQueue,
    stats: RelayStats,
    rng: Prng,
    events: Vec<RelayEvent>,
    stopped: bool,
}

/// Number of message identifiers that the relay remembers to drop repeated messages.
pub const SEEN_CAPACITY: usize = 1000;

impl<W: WakuProvider> FriendRelay<W> {
    /// The friends on the books.
    pub closed spec fn friends(&self) -> Seq<FriendNodeConfig> {
        self.friends@
    }

    /// The limiter of the messages that this node sends.
    pub closed spec fn limiter(&self) -> RateLimiter {
        self.rate_limiter
    }

    /// The guard against nullifiers that arrive twice.
    pub closed spec fn guard(&self) -> RateLimiter {
        self.replay_guard
    }

    /// The cache of the identifiers of the messages received.
    pub closed spec fn seen(&self) -> MessageQueue {
        self.message_queue
    }

    /// The counters.
    pub closed spec fn stats(&self) -> RelayStats {
        self.stats
    }

    /// What the events say that were emitted and not yet taken.
    pub closed spec fn emitted(&self) -> Seq<RelayEventView> {
        relay_event_views(self.events@)
    }

    /// Whether the relay was told to stop.
    pub closed spec fn is_stopped(&self) -> bool {
        self.stopped
    }

    /// The invariant of the relay: no two friends have the same identifier, and the limiter,
    /// the guard and the cache are consistent.
    pub open spec fn wf(&self) -> bool {
        &&& friend_ids(self.friends()).no_duplicates()
        &&& self.limiter().wf()
        &&& self.guard().wf()
        &&& self.seen().wf()
        &&& self.stats().friends_connected == self.friends().len()
    }

    /// Whether the relay is as new, whatever its friends: not stopped, the limiter unused
    /// with the budget `rate_limit`, the guard against replays unused and without a budget of
    /// its own, the cache empty with room for `max_seen` identifiers that are remembered for
    /// `ttl_millis`, no event emitted, and every counter at zero.
    pub open spec fn is_unused(&self, rate_limit: u32, max_seen: usize, ttl_millis: u64) -> bool {
        &&& !self.is_stopped()
        &&& self.limiter().is_unused(rate_limit)
        &&& self.guard().is_unused(u32::MAX)
        &&& self.seen().capacity() == max_seen
        &&& self.seen().ttl() == ttl_millis
        &&& self.seen().entries() == Entries::empty()
        &&& self.emitted() == Seq::<RelayEventView>::empty()
        &&& self.stats() == (RelayStats {
            messages_sent: 0,
            messages_received: 0,
            friends_connected: self.friends().len() as usize,
            total_latency_ms: 0,
            rate_limit_violations: 0,
            messages_dropped: 0,
            push_failures: 0,
        })
    }

    /// Whether `self` differs from `before` at most in its friends, its counters and its
    /// events.
    pub open spec fn same_core(&self, before: Self) -> bool {
        &&& self.limiter() == before.limiter()
        &&& self.guard() == before.guard()
        &&& self.seen() == before.seen()
        &&& self.is_stopped() == before.is_stopped()
    }

    /// Whether `self` is `before` with `friend` added or put in the place of the friend with
    /// the same identifier, the other friends as they were, and the arrival of the friend
    /// announced.
    pub open spec fn is_with_friend(&self, before: Self, friend: FriendNodeConfig) -> bool {
        &&& self.same_core(before)
        &&& self.friends() == with_friend(before.friends(), friend)
        &&& forall|id: Seq<char>| #[trigger]
            friend_ids(self.friends()).contains(id) <==> (friend_ids(before.friends()).contains(id)
                || id == friend.peer_id@)
        &&& exists|i: int|
            0 <= i < self.friends().len() && #[trigger] self.friends()[i] == friend
        &&& self.stats() == (RelayStats {
            friends_connected: self.friends().len() as usize,
            ..before.stats()
        })
        &&& self.emitted() == before.emitted().push(
            RelayEventView::FriendConnected(friend.peer_id@),
        )
    }

    /// Whether `self` is `before` without the friend with the identifier `peer_id`, the other
    /// friends as they were, and the departure announced.
    pub open spec fn is_without_friend(&self, before: Self, peer_id: Seq<char>) -> bool {
        &&& self.same_core(before)
        &&& self.friends() == without_friend(before.friends(), peer_id)
        &&& forall|id: Seq<char>| #[trigger]
            friend_ids(self.friends()).contains(id) <==> (friend_ids(before.friends()).contains(id)
                && id != peer_id)
        &&& self.stats() == (RelayStats {
            friends_connected: self.friends().len() as usize,
            ..before.stats()
        })
        &&& self.emitted() == before.emitted().push(RelayEventView::FriendDisconnected(peer_id))
    }

    /// Whether `self` is `before` with a new limiter of the budget `rate_limit`.
    pub open spec fn is_with_budget(&self, before: Self, rate_limit: u32) -> bool {
        &&& self.friends() == before.friends()
        &&& self.guard() == before.guard()
        &&& self.seen() == before.seen()
        &&& self.stats() == before.stats()
        &&& self.emitted() == before.emitted()
        &&& self.is_stopped() == before.is_stopped()
        &&& self.limiter().limit() == rate_limit
        &&& self.limiter().epoch() == 0
        &&& self.limiter().count() == 0
        &&& forall|e: u64| self.limiter().seen(e) == Seq::<Seq<u8>>::empty()
    }

    /// Whether `self` differs from `before` at most in the limiter of the messages sent, in
    /// the counters and in the events.
    pub open spec fn same_receiving_side(&self, before: Self) -> bool {
        &&& self.friends() == before.friends()
        &&& self.guard() == before.guard()
        &&& self.seen() == before.seen()
        &&& self.is_stopped() == before.is_stopped()
    }

    /// Whether `self` is `before` after the limiter refused a message of `epoch` with
    /// `nullifier`: the limiter has judged the message, the refusal is counted as a violation
    /// and announced with the limiter's epoch, count and budget.
    pub open spec fn is_refusal_of(&self, before: Self, epoch: u64, nullifier: Seq<u8>) -> bool {
        &&& self.same_receiving_side(before)
        &&& !before.limiter().accepts(epoch, nullifier)
        &&& self.limiter().is_judged_from(before.limiter(), epoch, nullifier, false)
        &&& self.stats() == (RelayStats {
            rate_limit_violations: capped_sum(before.stats().rate_limit_violations, 1),
            ..before.stats()
        })
        &&& self.emitted() == before.emitted().push(
            RelayEventView::RateLimitExceeded {
                epoch: self.limiter().epoch(),
                attempts: self.limiter().count(),
                limit: self.limiter().limit(),
            },
        )
    }

    /// Whether `self` is `before` after the limiter accepted a message of `epoch` with
    /// `nullifier`: the limiter has judged and counted the message, and nothing else changed.
    pub open spec fn is_grant_of(&self, before: Self, epoch: u64, nullifier: Seq<u8>) -> bool {
        &&& self.same_receiving_side(before)
        &&& before.limiter().accepts(epoch, nullifier)
        &&& self.limiter().is_judged_from(before.limiter(), epoch, nullifier, true)
        &&& self.stats() == before.stats()
        &&& self.emitted() == before.emitted()
    }

    /// Whether `self` is `before` after the pushes of the message `message_id` came back as
    /// `results` say, `latency_ms` milliseconds after the relaying began. The message is sent
    /// if a push was delivered: it is then counted and announced with the number of friends
    /// reached. The pushes that were not delivered are counted either way.
    pub open spec fn is_conclusion_of(
        &self,
        before: Self,
        message_id: Seq<char>,
        results: Seq<bool>,
        latency_ms: u64,
        sent: bool,
    ) -> bool {
        &&& self.same_receiving_side(before)
        &&& self.limiter() == before.limiter()
        &&& sent <==> delivered(results) > 0
        &&& sent ==> self.stats() == (RelayStats {
            messages_sent: capped_sum(before.stats().messages_sent, 1),
            total_latency_ms: capped_sum(before.stats().total_latency_ms, latency_ms),
            push_failures: capped_sum(
                before.stats().push_failures,
                (results.len() - delivered(results)) as u64,
            ),
            ..before.stats()
        }) && self.emitted() == before.emitted().push(
            RelayEventView::MessageRelayed {
                message_id,
                friends_count: delivered(results) as usize,
                latency_ms,
            },
        )
        &&& !sent ==> self.stats() == (RelayStats {
            push_failures: capped_sum(before.stats().push_failures, results.len() as u64),
            ..before.stats()
        }) && self.emitted() == before.emitted()
    }

    /// Whether `self` is what an attempt to relay an attestation of `subnet_id` makes of
    /// `before`, whatever the provider answered. There are four ways for it to end.
    ///
    /// The attempt stops before the limiter is asked, because the provider does not tell the
    /// epoch or make the proof or because the message does not fit the wire format: nothing
    /// changes. The limiter refuses the message: `is_refusal_of`. The limiter accepts the
    /// message and the sealed message does not fit the wire format: `is_grant_of`. Or the
    /// limiter accepts the message and it is pushed to every friend once: `is_conclusion_of`
    /// for the answers to the pushes, with the identifier that `message_id_chars` makes.
    /// Only the last way can end with the message sent.
    pub open spec fn is_relay_attempt_of(&self, before: Self, subnet_id: u8, sent: bool) -> bool {
        ||| {
            &&& !sent
            &&& self.same_receiving_side(before)
            &&& self.limiter() == before.limiter()
            &&& self.stats() == before.stats()
            &&& self.emitted() == before.emitted()
        }
        ||| !sent && exists|epoch: u64, nullifier: Seq<u8>| #[trigger]
            self.is_refusal_of(before, epoch, nullifier)
        ||| !sent && exists|epoch: u64, nullifier: Seq<u8>| #[trigger]
            self.is_grant_of(before, epoch, nullifier)
        ||| exists|
            granted: Self,
            epoch: u64,
            nullifier: Seq<u8>,
            nanos: u64,
            results: Seq<bool>,
            latency_ms: u64,
        |
            #![trigger
                granted.is_grant_of(before, epoch, nullifier),
                self.is_conclusion_of(
                    granted,
                    message_id_chars(nanos, subnet_id),
                    results,
                    latency_ms,
                    sent,
                ),
            ]
            {
                &&& granted.is_grant_of(before, epoch, nullifier)
                &&& results.len() == before.friends().len()
                &&& self.is_conclusion_of(
                    granted,
                    message_id_chars(nanos, subnet_id),
                    results,
                    latency_ms,
                    sent,
                )
            }
    }

    /// Whether `self` is what judging the message `envelope` that `from_friend` sent makes of
    /// `before`, where `proof_valid` is the provider's verdict on the proof and `now` the
    /// reading of the cache's clock.
    ///
    /// The message is accepted if the proof is valid, the guard accepts it (its epoch is not
    /// forgotten and its nullifier was not seen in its epoch), and its identifier is not in
    /// the cache once the expired entries are gone. A
    /// message with a valid proof is put to the guard, and one that passes the guard sweeps
    /// the cache. An accepted message enters the cache, counts as received and is announced;
    /// any other counts as dropped.
    pub open spec fn is_judgement_of(
        &self,
        before: Self,
        envelope: ProvenMessageView,
        proof_valid: bool,
        from_friend: Seq<char>,
        now: u64,
        accepted: bool,
    ) -> bool {
        let epoch = envelope.rln_proof.epoch;
        let nullifier = envelope.rln_proof.nullifier;
        let fresh = before.guard().accepts(epoch, nullifier);
        let swept = after_eviction(before.seen().entries(), now, before.seen().ttl());
        let known = holds(swept, envelope.message.message_id);
        &&& self.friends() == before.friends()
        &&& self.limiter() == before.limiter()
        &&& self.is_stopped() == before.is_stopped()
        &&& accepted <==> proof_valid && fresh && !known
        &&& !proof_valid ==> self.guard() == before.guard()
        &&& proof_valid ==> self.guard().is_judged_from(before.guard(), epoch, nullifier, fresh)
        &&& !(proof_valid && fresh) ==> self.seen() == before.seen()
        &&& proof_valid && fresh ==> {
            &&& self.seen().capacity() == before.seen().capacity()
            &&& self.seen().ttl() == before.seen().ttl()
            &&& self.seen().entries() == if known {
                swept
            } else {
                after_insert(swept, envelope.message.message_id, now, before.seen().capacity())
            }
        }
        &&& accepted ==> self.stats() == (RelayStats {
            messages_received: capped_sum(before.stats().messages_received, 1),
            ..before.stats()
        }) && self.emitted() == before.emitted().push(
            RelayEventView::MessageReceived {
                message_id: envelope.message.message_id,
                from_friend,
            },
        )
        &&& !accepted ==> self.stats() == (RelayStats {
            messages_dropped: capped_sum(before.stats().messages_dropped, 1),
            ..before.stats()
        }) && self.emitted() == before.emitted()
    }

    /// Whether `self` is what the command `command` makes of `before`, where `done` tells
    /// whether the command was carried out without an error.
    pub open spec fn is_outcome_of(&self, before: Self, command: RelayCommand, done: bool) -> bool {
        match command {
            RelayCommand::RelayAttestation { subnet_id, .. } => self.is_relay_attempt_of(
                before,
                subnet_id,
                done,
            ),
            RelayCommand::AddFriend(friend) => done && self.is_with_friend(before, friend),
            RelayCommand::RemoveFriend(peer_id) => done && self.is_without_friend(
                before,
                peer_id@,
            ),
            RelayCommand::GetStats => done && self.friends() == before.friends() && self.same_core(
                before,
            ) && self.stats() == before.stats() && self.emitted() == before.emitted(),
            RelayCommand::UpdateRln { rate_limit, epoch } => done && self.is_with_budget(
                before,
                rate_limit,
            ),
            RelayCommand::Stop => !done && self.is_stopped() && self.friends() == before.friends()
                && self.limiter() == before.limiter() && self.guard() == before.guard()
                && self.seen() == before.seen() && self.stats() == before.stats()
                && self.emitted() == before.emitted(),
        }
    }

    /// Position of the friend with the identifier `peer_id`, if there is one.
    fn find_friend(&self, peer_id: &String) -> (at: Option<usize>)
        ensures
            at matches Some(i) ==> i < self.friends().len() && self.friends()[i as int].peer_id@
                == peer_id@,
            at is None ==> !friend_ids(self.friends()).contains(peer_id@),
    {
        let mut i: usize = 0;
        while i < self.friends.len()
            invariant
                i <= self.friends@.len(),
                forall|j: int| 0 <= j < i ==> friend_ids(self.friends@)[j] != peer_id@,
            decreases self.friends@.len() - i,
        {
            if self.friends[i].peer_id == *peer_id {
                return Some(i);
            }
            i = i + 1;
        }
        None
    }

    /// A relay with the friends of the configuration, a limiter with the configured budget, an
    /// empty cache of 1000 identifiers that are remembered for five minutes, and counters at
    /// zero. The friends are enrolled in the order of the configuration, each as it is
    /// configured; of two with the same identifier the later one is kept, in the place of the
    /// earlier.
    pub fn new(config: &StealthConfig, waku_provider: W, rng: Prng) -> (relay: Self)
        ensures
            relay.wf(),
            relay.is_unused(
                config.waku_config.rate_limit_per_epoch,
                SEEN_CAPACITY,
                DEFAULT_TTL_MILLIS,
            ),
            !relay.is_stopped(),
            relay.limiter().limit() == config.waku_config.rate_limit_per_epoch,
            relay.limiter().epoch() == 0,
            relay.limiter().count() == 0,
            relay.seen().capacity() == SEEN_CAPACITY,
            relay.seen().ttl() == DEFAULT_TTL_MILLIS,
            relay.seen().entries() == Entries::empty(),
            relay.emitted() == Seq::<RelayEventView>::empty(),
            relay.stats().messages_sent == 0,
            relay.stats().messages_received == 0,
            relay.stats().rate_limit_violations == 0,
            relay.friends() == enrolled(config.friend_nodes@),
            forall|id: Seq<char>|
                friend_ids(relay.friends()).contains(id) <==> friend_ids(
                    config.friend_nodes@,
                ).contains(id),
    {
        Self::with_seen_cache(config, waku_provider, rng, SEEN_CAPACITY, DEFAULT_TTL_MILLIS)
    }

    /// A relay as `new` makes it, with a cache of `max_seen` identifiers that are remembered
    /// for `ttl_millis` milliseconds.
    pub fn with_seen_cache(
        config: &StealthConfig,
        waku_provider: W,
        rng: Prng,
        max_seen: usize,
        ttl_millis: u64,
    ) -> (relay: Self)
        ensures
            relay.wf(),
            relay.is_unused(config.waku_config.rate_limit_per_epoch, max_seen, ttl_millis),
            !relay.is_stopped(),
            relay.limiter().limit() == config.waku_config.rate_limit_per_epoch,
            relay.limiter().epoch() == 0,
            relay.limiter().count() == 0,
            relay.seen().capacity() == max_seen,
            relay.seen().ttl() == ttl_millis,
            relay.seen().entries() == Entries::empty(),
            relay.emitted() == Seq::<RelayEventView>::empty(),
            relay.stats().messages_sent == 0,
            relay.stats().messages_received == 0,
            relay.stats().rate_limit_violations == 0,
            relay.friends() == enrolled(config.friend_nodes@),
            forall|id: Seq<char>|
                friend_ids(relay.friends()).contains(id) <==> friend_ids(
                    config.friend_nodes@,
                ).contains(id),
    {
        let mut relay = FriendRelay {
            waku_provider,
            friends: Vec::new(),
            rate_limiter: RateLimiter::new(config.waku_config.rate_limit_per_epoch),
            replay_guard: RateLimiter::new(u32::MAX),
            message_queue: MessageQueue::with_ttl(max_seen, ttl_millis),
            stats: RelayStats {
                messages_sent: 0,
                messages_received: 0,
                friends_connected: 0,
                total_latency_ms: 0,
                rate_limit_violations: 0,
                messages_dropped: 0,
                push_failures: 0,
            },
            rng,
            events: Vec::new(),
            stopped: false,
        };
        assert(relay.emitted() =~= Seq::<RelayEventView>::empty());
        assert(relay.friends() =~= enrolled(config.friend_nodes@.take(0)));
        let ghost wanted = friend_ids(config.friend_nodes@);
        let mut i: usize = 0;
        while i < config.friend_nodes.len()
            invariant
                i <= config.friend_nodes@.len(),
                relay.wf(),
                relay.is_unused(config.waku_config.rate_limit_per_epoch, max_seen, ttl_millis),
                !relay.is_stopped(),
                wanted == friend_ids(config.friend_nodes@),
                relay.limiter().limit() == config.waku_config.rate_limit_per_epoch,
                relay.limiter().epoch() == 0,
                relay.limiter().count() == 0,
                relay.seen().capacity() == max_seen,
                relay.seen().ttl() == ttl_millis,
                relay.seen().entries() == Entries::empty(),
                relay.emitted() == Seq::<RelayEventView>::empty(),
                relay.stats().messages_sent == 0,
                relay.stats().messages_received == 0,
                relay.stats().rate_limit_violations == 0,
                relay.friends() == enrolled(config.friend_nodes@.take(i as int)),
                forall|id: Seq<char>|
                    friend_ids(relay.friends()).contains(id) <==> wanted.take(i as int).contains(
                        id,
                    ),
            decreases config.friend_nodes@.len() - i,
        {
            let friend = config.friend_nodes[i].clone();
            let ghost before = friend_ids(relay.friends());
            relay.put_friend(friend);
            proof {
                let list = config.friend_nodes@.take(i as int + 1);
                assert(list.drop_last() =~= config.friend_nodes@.take(i as int));
                assert(list.last() == friend);
                let prev = wanted.take(i as int);
                let next = wanted.take(i as int + 1);
                let id = wanted[i as int];
                assert(next =~= prev.push(id));
                assert forall|x: Seq<char>|
                    friend_ids(relay.friends()).contains(x) <==> next.contains(x) by {
                    if next.contains(x) {
                        let a = choose|a: int| 0 <= a < next.len() && next[a] == x;
                        if a < prev.len() {
                            assert(prev[a] == x);
                            assert(prev.contains(x));
                        }
                    }
                    if prev.contains(x) {
                        let a = choose|a: int| 0 <= a < prev.len() && prev[a] == x;
                        assert(next[a] == x);
                    }
                    assert(next[i as int] == id);
                }
            }
            i = i + 1;
        }
        assert(wanted.take(i as int) =~= wanted);
        assert(config.friend_nodes@.take(i as int) =~= config.friend_nodes@);
        relay
    }

    /// Puts `friend` on the books, in the place of a friend with the same identifier if
    /// there is one.
    fn put_friend(&mut self, friend: FriendNodeConfig)
        requires
            old(self).wf(),
        ensures
            final(self).wf(),
            final(self).limiter() == old(self).limiter(),
            final(self).guard() == old(self).guard(),
            final(self).seen() == old(self).seen(),
            final(self).emitted() == old(self).emitted(),
            final(self).is_stopped() == old(self).is_stopped(),
            final(self).stats() == (RelayStats {
                friends_connected: final(self).friends().len() as usize,
                ..old(self).stats()
            }),
            final(self).friends() == with_friend(old(self).friends(), friend),
            forall|id: Seq<char>| #[trigger]
                friend_ids(final(self).friends()).contains(id) <==> (friend_ids(
                    old(self).friends(),
                ).contains(id) || id == friend.peer_id@),
            exists|i: int|
                0 <= i < final(self).friends().len() && #[trigger] final(self).friends()[i]
                    == friend,
    {
        let ghost before = friend_ids(self.friends@);
        match self.find_friend(&friend.peer_id) {
            Some(i) => {
                let ghost id = friend.peer_id@;
                self.friends.remove(i);
                self.friends.insert(i, friend);
                proof {
                    let after = friend_ids(self.friends@);
                    assert(after =~= before);
                    assert(before[i as int] == friend.peer_id@);
                    assert(self.friends()[i as int] == friend);
                    lemma_friend_position(old(self).friends(), i as int);
                    assert(self.friends() =~= old(self).friends().update(i as int, friend));
                }
            },
            None => {
                self.friends.push(friend);
                self.stats.friends_connected = self.friends.len();
                proof {
                    let after = friend_ids(self.friends@);
                    assert(after =~= before.push(friend.peer_id@));
                    assert forall|x: Seq<char>|
                        after.contains(x) <==> (before.contains(x) || x == friend.peer_id@) by {
                        if after.contains(x) {
                            let a = choose|a: int| 0 <= a < after.len() && after[a] == x;
                            if a < before.len() {
                                assert(before[a] == x);
                            }
                        }
                        if before.contains(x) {
                            let a = choose|a: int| 0 <= a < before.len() && before[a] == x;
                            assert(after[a] == x);
                        }
                        assert(after[before.len() as int] == friend.peer_id@);
                    }
                    assert(self.friends()[before.len() as int] == friend);
                    assert(self.friends() =~= old(self).friends().push(friend));
                }
            },
        }
    }

    /// The counters as they stand.
    pub fn get_stats(&self) -> (stats: RelayStats)
        ensures
            stats == self.stats(),
    {
        self.stats
    }

    /// The friends on the books, in the order in which they were enrolled.
    pub fn get_friends(&self) -> (friends: &Vec<FriendNodeConfig>)
        ensures
            friends@ == self.friends(),
    {
        &self.friends
    }

    /// Number of friends on the books.
    pub fn friend_count(&self) -> (n: usize)
        ensures
            n == self.friends().len(),
    {
        self.friends.len()
    }

    /// Whether a friend with the identifier `peer_id` is on the books.
    pub fn has_friend(&self, peer_id: &str) -> (found: bool)
        ensures
            found == friend_ids(self.friends()).contains(peer_id@),
    {
        let wanted = String::from_str(peer_id);
        match self.find_friend(&wanted) {
            Some(i) => {
                assert(friend_ids(self.friends())[i as int] == peer_id@);
                true
            },
            None => false,
        }
    }

    /// Hands over the events that were emitted since the last call, oldest first.
    pub fn take_events(&mut self) -> (events: Vec<RelayEvent>)
        ensures
            relay_event_views(events@) == old(self).emitted(),
            final(self).emitted() == Seq::<RelayEventView>::empty(),
            final(self).friends() == old(self).friends(),
            final(self).limiter() == old(self).limiter(),
            final(self).guard() == old(self).guard(),
            final(self).seen() == old(self).seen(),
            final(self).stats() == old(self).stats(),
            final(self).is_stopped() == old(self).is_stopped(),
    {
        let mut events: Vec<RelayEvent> = Vec::new();
        std::mem::swap(&mut events, &mut self.events);
        assert(self.emitted() =~= Seq::<RelayEventView>::empty());
        events
    }

    /// Adds a friend and announces it. A friend with the same identifier is replaced.
    pub fn add_friend(&mut self, friend: FriendNodeConfig)
        requires
            old(self).wf(),
        ensures
            final(self).wf(),
            final(self).is_with_friend(*old(self), friend),
    {
        let id = copy_text(&friend.peer_id);
        self.put_friend(friend);
        let ghost before = self.events@;
        self.events.push(RelayEvent::FriendConnected(id));
        assert(relay_event_views(self.events@) =~= relay_event_views(before).push(
            RelayEventView::FriendConnected(friend.peer_id@),
        ));
    }

    /// Removes the friend with the identifier `peer_id`, if there is one, and announces that
    /// the friend is gone.
    pub fn remove_friend(&mut self, peer_id: String)
        requires
            old(self).wf(),
        ensures
            final(self).wf(),
            final(self).is_without_friend(*old(self), peer_id@),
    {
        let ghost before = friend_ids(self.friends@);
        match self.find_friend(&peer_id) {
            Some(i) => {
                self.friends.remove(i);
                self.stats.friends_connected = self.friends.len();
                proof {
                    let after = friend_ids(self.friends@);
                    assert(after =~= before.remove(i as int));
                    lemma_friend_position(old(self).friends(), i as int);
                    assert(self.friends() =~= old(self).friends().remove(i as int));
                    crate::subnet_set::lemma_remove_to_set(before, i as int);
                    assert forall|x: Seq<char>|
                        after.contains(x) <==> (before.contains(x) && x != peer_id@) by {
                        assert(after.to_set().contains(x) == before.to_set().remove(
                            before[i as int],
                        ).contains(x));
                    }
                }
            },
            None => {},
        }
        let ghost events_before = self.events@;
        self.events.push(RelayEvent::FriendDisconnected(peer_id));
        assert(relay_event_views(self.events@) =~= relay_event_views(events_before).push(
            RelayEventView::FriendDisconnected(peer_id@),
        ));
    }

    /// Starts the rate limiter anew with the budget `rate_limit`.
    pub fn update_rln(&mut self, rate_limit: u32, epoch: u64)
        requires
            old(self).wf(),
        ensures
            final(self).wf(),
            final(self).is_with_budget(*old(self), rate_limit),
    {
        self.rate_limiter = RateLimiter::new(rate_limit);
    }

    /// Submits a message of `epoch` with `nullifier` to the rate limiter.
    ///
    /// A message that the limiter accepts changes the limiter alone. One that it refuses is
    /// counted as a violation and announced with the limiter's epoch, count and budget, and
    /// the refusal is returned as an error.
    pub fn submit(&mut self, epoch: u64, nullifier: Bytes32) -> (result: Result<(), StealthError>)
        requires
            old(self).wf(),
        ensures
            final(self).wf(),
            final(self).friends() == old(self).friends(),
            final(self).guard() == old(self).guard(),
            final(self).seen() == old(self).seen(),
            final(self).is_stopped() == old(self).is_stopped(),
            final(self).limiter().limit() == old(self).limiter().limit(),
            final(self).limiter().epoch() == old(self).limiter().epoch_after(epoch),
            result is Ok ==> final(self).is_grant_of(*old(self), epoch, nullifier@),
            result is Err ==> final(self).is_refusal_of(*old(self), epoch, nullifier@),
            result is Ok <==> old(self).limiter().accepts(epoch, nullifier@),
            result is Err ==> result matches Err(StealthError::RlnProof(_)),
    {
        match self.rate_limiter.check_and_update(epoch, nullifier) {
            Ok(_) => Ok(()),
            Err(reason) => {
                let (at, count, limit) = self.rate_limiter.get_stats();
                self.stats.rate_limit_violations = capped_add(self.stats.rate_limit_violations, 1);
                let ghost before = self.events@;
                self.events.push(
                    RelayEvent::RateLimitExceeded { epoch: at, attempts: count, limit },
                );
                assert(relay_event_views(self.events@) =~= relay_event_views(before).push(
                    RelayEventView::RateLimitExceeded { epoch: at, attempts: count, limit },
                ));
                Err(StealthError::RlnProof(reason))
            },
        }
    }

    /// Closes the relaying of the message `message_id` once every friend has been pushed to.
    ///
    /// Where at least one push was delivered the message counts as sent: the counters are
    /// brought up to date and the relaying is announced with the number of friends reached.
    /// Where none was, the failure is returned as an error and nothing is announced. Pushes
    /// that were not delivered are counted either way.
    pub fn conclude(&mut self, message_id: String, results: &Vec<bool>, latency_ms: u64) -> (result:
        Result<(), StealthError>)
        requires
            old(self).wf(),
        ensures
            final(self).wf(),
            final(self).friends() == old(self).friends(),
            final(self).limiter() == old(self).limiter(),
            final(self).guard() == old(self).guard(),
            final(self).seen() == old(self).seen(),
            final(self).is_stopped() == old(self).is_stopped(),
            final(self).is_conclusion_of(
                *old(self),
                message_id@,
                results@,
                latency_ms,
                result is Ok,
            ),
            result is Ok <==> delivered(results@) > 0,
            result is Ok ==> final(self).stats() == (RelayStats {
                messages_sent: capped_sum(old(self).stats().messages_sent, 1),
                total_latency_ms: capped_sum(old(self).stats().total_latency_ms, latency_ms),
                push_failures: capped_sum(
                    old(self).stats().push_failures,
                    (results@.len() - delivered(results@)) as u64,
                ),
                ..old(self).stats()
            }) && final(self).emitted() == old(self).emitted().push(
                RelayEventView::MessageRelayed {
                    message_id: message_id@,
                    friends_count: delivered(results@) as usize,
                    latency_ms,
                },
            ),
            result is Err ==> (result matches Err(StealthError::RlnProof(m)) && m@
                == "Failed to relay to any friends"@) && final(self).stats() == (RelayStats {
                push_failures: capped_sum(old(self).stats().push_failures, results@.len() as u64),
                ..old(self).stats()
            }) && final(self).emitted() == old(self).emitted(),
    {
        let reached = count_delivered(results);
        let missed = results.len() - reached;
        self.stats.push_failures = capped_add(self.stats.push_failures, missed as u64);
        if reached == 0 {
            return Err(StealthError::RlnProof(String::from_str("Failed to relay to any friends")));
        }
        self.stats.messages_sent = capped_add(self.stats.messages_sent, 1);
        self.stats.total_latency_ms = capped_add(self.stats.total_latency_ms, latency_ms);
        let ghost before = self.events@;
        self.events.push(
            RelayEvent::MessageRelayed { message_id, friends_count: reached, latency_ms },
        );
        assert(relay_event_views(self.events@) =~= relay_event_views(before).push(
            RelayEventView::MessageRelayed {
                message_id: message_id@,
                friends_count: reached,
                latency_ms,
            },
        ));
        Ok(())
    }

    /// The positions of the friends in a random order: the order in which a message is
    /// pushed to them, each friend once.
    pub fn fanout_order(&mut self) -> (order: Vec<usize>)
        ensures
            final(self).same_receiving_side(*old(self)),
            final(self).limiter() == old(self).limiter(),
            final(self).stats() == old(self).stats(),
            final(self).emitted() == old(self).emitted(),
            is_permutation(Seq::new(old(self).friends().len(), |i: int| i as usize), order@),
            order@.len() == old(self).friends().len(),
    {
        let mut order: Vec<usize> = Vec::new();
        let mut f: usize = 0;
        while f < self.friends.len()
            invariant
                f <= self.friends@.len(),
                order@ =~= Seq::new(f as nat, |i: int| i as usize),
            decreases self.friends@.len() - f,
        {
            order.push(f);
            f = f + 1;
        }
        self.rng.shuffle(&mut order);
        order
    }

    /// Relays an attestation: makes the message, has it proven for the present epoch, submits
    /// it to the rate limiter, and pushes the sealed message to every friend, in random order,
    /// on the topic of the subnet.
    ///
    /// The relaying succeeds if at least one friend is reached, so never without a friend. A
    /// refusal of the provider to tell the epoch or to make the proof, or a message that does
    /// not fit the wire format, ends the relaying with an error before anything is sent.
    pub fn relay_attestation(&mut self, attestation_data: Vec<u8>, subnet_id: u8) -> (result:
        Result<(), StealthError>)
        requires
            old(self).wf(),
        ensures
            final(self).wf(),
            final(self).is_relay_attempt_of(*old(self), subnet_id, result is Ok),
            old(self).friends().len() == 0 ==> result is Err,
            attestation_data@.len() > u32::MAX ==> {
                &&& result is Err
                &&& final(self).same_receiving_side(*old(self))
                &&& final(self).limiter() == old(self).limiter()
                &&& final(self).stats() == old(self).stats()
                &&& final(self).emitted() == old(self).emitted()
            },
            result is Ok ==> {
                &&& final(self).stats().messages_sent == capped_sum(
                    old(self).stats().messages_sent,
                    1,
                )
                &&& final(self).emitted().len() == old(self).emitted().len() + 1
                &&& final(self).emitted().last() matches RelayEventView::MessageRelayed {
                    friends_count,
                    ..
                }
                &&& 1 <= friends_count <= old(self).friends().len()
            },
    {
        let started = instant_now();
        let stamp = wall_clock_nanos();
        let nanos: u64 = if stamp < 0 {
            0
        } else {
            stamp as u64
        };
        let message = outbound_message(attestation_data, subnet_id, nanos);
        let epoch = match self.waku_provider.get_rln_epoch() {
            Ok(epoch) => epoch,
            Err(e) => {
                return Err(e);
            },
        };
        let message_bytes = match encode_relay_message(&message) {
            Some(bytes) => bytes,
            None => {
                return Err(
                    StealthError::RlnProof(String::from_str("Message serialization failed")),
                );
            },
        };
        let rln_proof = match self.waku_provider.generate_rln_proof(&message_bytes, epoch) {
            Ok(proof) => proof,
            Err(e) => {
                return Err(e);
            },
        };
        let ghost nullifier = rln_proof.nullifier@;
        match self.submit(epoch, rln_proof.nullifier) {
            Ok(_) => {},
            Err(e) => {
                assert(self.is_refusal_of(*old(self), epoch, nullifier));
                return Err(e);
            },
        }
        let ghost granted = *self;
        assert(granted.is_grant_of(*old(self), epoch, nullifier));
        let message_id = copy_text(&message.message_id);
        let envelope_bytes = match egress_bytes(message, rln_proof) {
            Some(bytes) => bytes,
            None => {
                return Err(
                    StealthError::RlnProof(
                        String::from_str("Proven message serialization failed"),
                    ),
                );
            },
        };
        let topic = relay_topic(subnet_id);
        let order = self.fanout_order();
        let mut results: Vec<bool> = Vec::new();
        let mut i: usize = 0;
        while i < order.len()
            invariant
                i <= order@.len(),
                results@.len() == i,
            decreases order@.len() - i,
        {
            let answer = self.waku_provider.light_push(
                topic.as_str(),
                &envelope_bytes,
                Some(nanos),
            );
            results.push(answer.is_ok());
            i = i + 1;
        }
        let latency_ms = elapsed_millis(&started);
        let ghost ready = *self;
        let outcome = self.conclude(message_id, &results, latency_ms);
        proof {
            lemma_delivered_bound(results@);
            assert(ready.is_grant_of(*old(self), epoch, nullifier));
            assert(self.is_conclusion_of(
                ready,
                message_id_chars(nanos, subnet_id),
                results@,
                latency_ms,
                outcome is Ok,
            ));
        }
        outcome
    }

    /// Judges a message that a friend sent, once the provider has said whether its proof is
    /// valid, on the clock reading `now` of the cache.
    ///
    /// The message is dropped, and counted as dropped, if the proof is not valid, if its
    /// epoch is older than the guard remembers, if its nullifier was seen before in its
    /// epoch, or if its identifier is in the cache of recent messages. Otherwise its
    /// identifier enters the cache, the message counts as received and its arrival is
    /// announced.
    pub fn accept_incoming(
        &mut self,
        envelope: &ProvenMessage,
        proof_valid: bool,
        from_friend: &str,
        now: u64,
    ) -> (accepted: bool)
        requires
            old(self).wf(),
        ensures
            final(self).wf(),
            final(self).is_judgement_of(
                *old(self),
                envelope@,
                proof_valid,
                from_friend@,
                now,
                accepted,
            ),
            final(self).friends() == old(self).friends(),
            final(self).limiter() == old(self).limiter(),
            final(self).is_stopped() == old(self).is_stopped(),
            !proof_valid ==> !accepted && final(self).guard() == old(self).guard()
                && final(self).seen() == old(self).seen(),
            proof_valid && !old(self).guard().accepts(
                envelope.rln_proof.epoch,
                envelope.rln_proof.nullifier@,
            ) ==> !accepted && final(self).seen() == old(self).seen(),
            accepted <==> proof_valid && old(self).guard().accepts(
                envelope.rln_proof.epoch,
                envelope.rln_proof.nullifier@,
            ) && !holds(
                after_eviction(old(self).seen().entries(), now, old(self).seen().ttl()),
                envelope.message.message_id@,
            ),
            accepted ==> final(self).seen().entries() == after_insert(
                after_eviction(old(self).seen().entries(), now, old(self).seen().ttl()),
                envelope.message.message_id@,
                now,
                old(self).seen().capacity(),
            ) && final(self).stats() == (RelayStats {
                messages_received: capped_sum(old(self).stats().messages_received, 1),
                ..old(self).stats()
            }) && final(self).emitted() == old(self).emitted().push(
                RelayEventView::MessageReceived {
                    message_id: envelope.message.message_id@,
                    from_friend: from_friend@,
                },
            ),
            !accepted ==> final(self).stats() == (RelayStats {
                messages_dropped: capped_sum(old(self).stats().messages_dropped, 1),
                ..old(self).stats()
            }) && final(self).emitted() == old(self).emitted(),
    {
        if !proof_valid {
            self.stats.messages_dropped = capped_add(self.stats.messages_dropped, 1);
            return false;
        }
        let fresh = self.replay_guard.check_and_update(
            envelope.rln_proof.epoch,
            envelope.rln_proof.nullifier,
        );
        if fresh.is_err() {
            self.stats.messages_dropped = capped_add(self.stats.messages_dropped, 1);
            return false;
        }
        if self.message_queue.has_seen_at(envelope.message.message_id.as_str(), now) {
            self.stats.messages_dropped = capped_add(self.stats.messages_dropped, 1);
            return false;
        }
        let message_id = copy_text(&envelope.message.message_id);
        self.message_queue.add_message_at(copy_text(&envelope.message.message_id), now);
        self.stats.messages_received = capped_add(self.stats.messages_received, 1);
        let ghost before = self.events@;
        self.events.push(
            RelayEvent::MessageReceived { message_id, from_friend: String::from_str(from_friend) },
        );
        assert(relay_event_views(self.events@) =~= relay_event_views(before).push(
            RelayEventView::MessageReceived {
                message_id: envelope.message.message_id@,
                from_friend: from_friend@,
            },
        ));
        true
    }

    /// Takes the bytes that a friend sent. Bytes that are no envelope are dropped without a
    /// trace. The proof of an envelope is put to the provider, and the message is then judged
    /// as `accept_incoming` says, on the reading of the cache's clock; a provider that fails
    /// to judge the proof counts as a proof that is not valid.
    pub fn handle_incoming(&mut self, bytes: &Vec<u8>, from_friend: &str) -> (accepted: bool)
        requires
            old(self).wf(),
        ensures
            final(self).wf(),
            final(self).friends() == old(self).friends(),
            final(self).limiter() == old(self).limiter(),
            final(self).is_stopped() == old(self).is_stopped(),
            dec_envelope(bytes@) is None ==> {
                &&& !accepted
                &&& final(self).guard() == old(self).guard()
                &&& final(self).seen() == old(self).seen()
                &&& final(self).stats() == old(self).stats()
                &&& final(self).emitted() == old(self).emitted()
            },
            dec_envelope(bytes@) matches Some(e) ==> exists|proof_valid: bool, now: u64| #[trigger]
                final(self).is_judgement_of(
                    *old(self),
                    e,
                    proof_valid,
                    from_friend@,
                    now,
                    accepted,
                ),
            accepted ==> (dec_envelope(bytes@) matches Some(e) && final(self).emitted() == old(
                self
            ).emitted().push(
                RelayEventView::MessageReceived {
                    message_id: e.message.message_id,
                    from_friend: from_friend@,
                },
            )),
            !accepted ==> final(self).emitted() == old(self).emitted(),
    {
        let envelope = match decode_proven_message(bytes) {
            Some(envelope) => envelope,
            None => {
                return false;
            },
        };
        let proof_valid = match encode_relay_message(&envelope.message) {
            Some(message_bytes) => match self.waku_provider.verify_rln_proof(
                &envelope.rln_proof,
                &message_bytes,
            ) {
                Ok(valid) => valid,
                Err(_) => false,
            },
            None => false,
        };
        let now = self.message_queue.clock_millis();
        let accepted = self.accept_incoming(&envelope, proof_valid, from_friend, now);
        assert(self.is_judgement_of(
            *old(self),
            envelope@,
            proof_valid,
            from_friend@,
            now,
            accepted,
        ));
        accepted
    }

    /// Carries out a command.
    ///
    /// `Stop` marks the relay as stopped and is answered with the error that ends the caller's
    /// loop. `GetStats` changes nothing. The other commands do what `relay_attestation`,
    /// `add_friend`, `remove_friend` and `update_rln` say.
    pub fn handle_command(&mut self, command: RelayCommand) -> (result: Result<(), StealthError>)
        requires
            old(self).wf(),
        ensures
            final(self).wf(),
            final(self).is_outcome_of(*old(self), command, result is Ok),
            command is Stop ==> (result matches Err(StealthError::RlnProof(m)) && m@
                == "Stop requested"@),
    {
        match command {
            RelayCommand::RelayAttestation { attestation_data, subnet_id } => {
                self.relay_attestation(attestation_data, subnet_id)
            },
            RelayCommand::AddFriend(friend) => {
                self.add_friend(friend);
                Ok(())
            },
            RelayCommand::RemoveFriend(peer_id) => {
                self.remove_friend(peer_id);
                Ok(())
            },
            RelayCommand::GetStats => Ok(()),
            RelayCommand::UpdateRln { rate_limit, epoch } => {
                self.update_rln(rate_limit, epoch);
                Ok(())
            },
            RelayCommand::Stop => {
                self.stopped = true;
                Err(StealthError::RlnProof(String::from_str("Stop requested")))
            },
        }
    }

    /// Carries out a command as the relay's loop does, and tells whether the loop goes on.
    ///
    /// The command to stop ends the loop and is not announced as an error. An error of any
    /// other command is announced as an error event, and the loop goes on.
    pub fn process(&mut self, command: RelayCommand) -> (keep_running: bool)
        requires
            old(self).wf(),
        ensures
            final(self).wf(),
            keep_running == !(command is Stop),
            command is Stop ==> final(self).is_outcome_of(*old(self), command, false),
            !(command is Stop) ==> exists|carried: Self, done: bool|
                {
                    &&& #[trigger] carried.is_outcome_of(*old(self), command, done)
                    &&& final(self).friends() == carried.friends()
                    &&& final(self).same_core(carried)
                    &&& final(self).stats() == carried.stats()
                    &&& done ==> final(self).emitted() == carried.emitted()
                    &&& !done ==> final(self).emitted().len() == carried.emitted().len() + 1
                        && final(self).emitted().drop_last() == carried.emitted() && final(
                        self
                    ).emitted().last() is Error
                },
    {
        let stop = match &command {
            RelayCommand::Stop => true,
            _ => false,
        };
        let outcome = self.handle_command(command);
        if stop {
            return false;
        }
        let ghost carried = *self;
        match outcome {
            Ok(_) => {
                proof {
                    assert(carried.is_outcome_of(*old(self), command, true));
                }
            },
            Err(e) => {
                let ghost before = self.events@;
                self.events.push(RelayEvent::Error(e.message()));
                proof {
                    assert(relay_event_views(self.events@).drop_last() =~= relay_event_views(
                        before,
                    ));
                    assert(carried.is_outcome_of(*old(self), command, false));
                }
            },
        }
        true
    }
}

} // verus!
