use std::cell::RefCell;
use stealth_sidecar::common::{FriendNodeConfig, StealthConfig, StealthError};
use stealth_sidecar::friend_relay::{
    capped_add, count_delivered, egress_bytes, outbound_message, relay_topic, seal, FriendRelay,
    RelayCommand, RelayEvent, WakuProvider,
};
use stealth_sidecar::messages::{ProvenMessage, RlnProof};
use stealth_sidecar::prng::Prng;
use stealth_sidecar::rate_limiter::Bytes32;
use stealth_sidecar::wire::{decode_proven_message, encode_proven_message};

struct MockWakuProvider {
    current_epoch: RefCell<u64>,
    next_nullifier: RefCell<u64>,
    fixed_nullifier: RefCell<Option<u64>>,
    pushes: RefCell<Vec<(String, Vec<u8>)>>,
    failing_pushes: RefCell<Vec<usize>>,
    fail_proof: RefCell<bool>,
    verdict: RefCell<bool>,
}

impl MockWakuProvider {
    fn new() -> Self {
        Self {
            current_epoch: RefCell::new(100),
            next_nullifier: RefCell::new(1),
            fixed_nullifier: RefCell::new(None),
            pushes: RefCell::new(Vec::new()),
            failing_pushes: RefCell::new(Vec::new()),
            fail_proof: RefCell::new(false),
            verdict: RefCell::new(true),
        }
    }
}

fn bytes32(n: u64) -> Bytes32 {
    let mut bytes = [0u8; 32];
    bytes[..8].copy_from_slice(&n.to_le_bytes());
    Bytes32(bytes)
}

impl WakuProvider for &MockWakuProvider {
    fn generate_rln_proof(&self, _message: &Vec<u8>, epoch: u64) -> Result<RlnProof, StealthError> {
        if *self.fail_proof.borrow() {
            return Err(StealthError::RlnProof("no proof".to_string()));
        }
        let n = match *self.fixed_nullifier.borrow() {
            Some(n) => n,
            None => {
                let mut next = self.next_nullifier.borrow_mut();
                *next += 1;
                *next
            }
        };
        Ok(RlnProof {
            nullifier: bytes32(n),
            proof: vec![1, 2, 3, 4],
            epoch,
            signal_hash: bytes32(n + 1_000_000),
        })
    }

    fn verify_rln_proof(&self, _proof: &RlnProof, _message: &Vec<u8>) -> Result<bool, StealthError> {
        Ok(*self.verdict.borrow())
    }

    fn light_push(
        &self,
        topic: &str,
        message: &Vec<u8>,
        _timestamp: Option<u64>,
    ) -> Result<String, StealthError> {
        let mut pushes = self.pushes.borrow_mut();
        let index = pushes.len();
        pushes.push((topic.to_string(), message.clone()));
        if self.failing_pushes.borrow().contains(&index) {
            Err(StealthError::Network("push failed".to_string()))
        } else {
            Ok("message_123".to_string())
        }
    }

    fn get_rln_epoch(&self) -> Result<u64, StealthError> {
        Ok(*self.current_epoch.borrow())
    }
}

fn friend(n: u8) -> FriendNodeConfig {
    FriendNodeConfig {
        peer_id: format!("friend{}", n),
        multiaddr: format!("/ip4/127.0.0.1/tcp/6000{}", n),
        public_key: format!("pub{}", n),
    }
}

fn config(friends: u8, rate_limit: u32) -> StealthConfig {
    let mut config = StealthConfig::default();
    config.friend_nodes = (1..=friends).map(friend).collect();
    config.waku_config.rate_limit_per_epoch = rate_limit;
    config
}

fn envelope(id_time: u64, nullifier: u64) -> ProvenMessage {
    let message = outbound_message(vec![9, 9, 9], 3, id_time);
    let proof = RlnProof {
        nullifier: bytes32(nullifier),
        proof: vec![5, 6],
        epoch: 100,
        signal_hash: bytes32(77),
    };
    seal(message, proof)
}

#[test]
fn test_friend_relay_initialization() {
    let provider = MockWakuProvider::new();
    let relay = FriendRelay::new(&config(2, 100), &provider, Prng::from_seed(1));

    assert_eq!(relay.friend_count(), 2);
    assert!(relay.has_friend("friend1"));
    assert!(relay.has_friend("friend2"));
}

#[test]
fn duplicate_friends_in_the_configuration_are_kept_once() {
    let provider = MockWakuProvider::new();
    let mut cfg = config(2, 100);
    let mut again = friend(1);
    again.public_key = "newer".to_string();
    cfg.friend_nodes.push(again);
    let relay = FriendRelay::new(&cfg, &provider, Prng::from_seed(1));
    assert_eq!(relay.friend_count(), 2);
    assert_eq!(relay.get_stats().friends_connected, 2);
}

#[test]
fn relay_reaches_every_friend_on_the_subnet_topic() {
    let provider = MockWakuProvider::new();
    let mut relay = FriendRelay::new(&config(3, 100), &provider, Prng::from_seed(1));
    assert!(relay.relay_attestation(vec![1, 2, 3], 5).is_ok());
    let pushes = provider.pushes.borrow().clone();
    assert_eq!(pushes.len(), 3);
    for (topic, bytes) in pushes.iter() {
        assert_eq!(topic, "/privacy-relay/5");
        let envelope = decode_proven_message(bytes).expect("an envelope");
        assert_eq!(envelope.message.attestation_data, vec![1, 2, 3]);
        assert_eq!(envelope.message.subnet_id, 5);
        assert!(envelope.message.origin_hint.is_none());
        assert_eq!(envelope.sender_id, "stealth_sidecar");
        assert_eq!(envelope.rln_proof.epoch, 100);
        assert_eq!(
            envelope.message.message_id,
            format!("{}_5", envelope.message.timestamp)
        );
    }
    let events = relay.take_events();
    assert_eq!(events.len(), 1);
    match &events[0] {
        RelayEvent::MessageRelayed { friends_count, .. } => assert_eq!(*friends_count, 3),
        other => panic!("unexpected event {:?}", other),
    }
    assert_eq!(relay.get_stats().messages_sent, 1);
}

#[test]
fn rate_limit_trips_at_the_eleventh_message_and_resets_with_the_epoch() {
    let provider = MockWakuProvider::new();
    let mut relay = FriendRelay::new(&config(3, 10), &provider, Prng::from_seed(1));
    for _ in 0..10 {
        assert!(relay.relay_attestation(vec![1], 1).is_ok());
    }
    relay.take_events();
    let sent_before = provider.pushes.borrow().len();
    match relay.relay_attestation(vec![1], 1) {
        Err(StealthError::RlnProof(m)) => {
            assert_eq!(m, "Rate limit exceeded: 10/10 messages in epoch 100")
        }
        other => panic!("unexpected result {:?}", other),
    }
    assert_eq!(provider.pushes.borrow().len(), sent_before);
    let events = relay.take_events();
    assert_eq!(events.len(), 1);
    match &events[0] {
        RelayEvent::RateLimitExceeded { epoch, attempts, limit } => {
            assert_eq!((*epoch, *attempts, *limit), (100, 10, 10));
        }
        other => panic!("unexpected event {:?}", other),
    }
    assert_eq!(relay.get_stats().rate_limit_violations, 1);
    *provider.current_epoch.borrow_mut() = 101;
    assert!(relay.relay_attestation(vec![1], 1).is_ok());
    assert_eq!(relay.get_stats().messages_sent, 11);
}

#[test]
fn a_replayed_nullifier_is_rejected() {
    let provider = MockWakuProvider::new();
    *provider.fixed_nullifier.borrow_mut() = Some(5);
    let mut relay = FriendRelay::new(&config(3, 10), &provider, Prng::from_seed(1));
    assert!(relay.relay_attestation(vec![1], 1).is_ok());
    match relay.relay_attestation(vec![2], 1) {
        Err(StealthError::RlnProof(m)) => assert_eq!(m, "Nullifier already used in epoch 100"),
        other => panic!("unexpected result {:?}", other),
    }
    assert_eq!(provider.pushes.borrow().len(), 3);
    assert_eq!(relay.get_stats().messages_sent, 1);
}

#[test]
fn fanout_survives_two_failing_friends_out_of_five() {
    let provider = MockWakuProvider::new();
    *provider.failing_pushes.borrow_mut() = vec![1, 3];
    let mut relay = FriendRelay::new(&config(5, 100), &provider, Prng::from_seed(1));
    assert!(relay.relay_attestation(vec![1, 2], 9).is_ok());
    assert_eq!(provider.pushes.borrow().len(), 5);
    let events = relay.take_events();
    assert_eq!(events.len(), 1);
    match &events[0] {
        RelayEvent::MessageRelayed { friends_count, .. } => assert_eq!(*friends_count, 3),
        other => panic!("unexpected event {:?}", other),
    }
    assert_eq!(relay.get_stats().push_failures, 2);
    assert_eq!(relay.get_stats().messages_sent, 1);
}

#[test]
fn total_failure_is_an_error() {
    let provider = MockWakuProvider::new();
    *provider.failing_pushes.borrow_mut() = vec![0, 1, 2];
    let mut relay = FriendRelay::new(&config(3, 100), &provider, Prng::from_seed(1));
    match relay.relay_attestation(vec![1, 2], 9) {
        Err(StealthError::RlnProof(m)) => assert_eq!(m, "Failed to relay to any friends"),
        other => panic!("unexpected result {:?}", other),
    }
    assert!(relay.take_events().is_empty());
    assert_eq!(relay.get_stats().messages_sent, 0);
    assert_eq!(relay.get_stats().push_failures, 3);
}

#[test]
fn relaying_without_friends_is_an_error() {
    let provider = MockWakuProvider::new();
    let mut relay = FriendRelay::new(&config(0, 100), &provider, Prng::from_seed(1));
    assert!(relay.relay_attestation(vec![1, 2], 9).is_err());
}

#[test]
fn a_failed_proof_sends_nothing() {
    let provider = MockWakuProvider::new();
    *provider.fail_proof.borrow_mut() = true;
    let mut relay = FriendRelay::new(&config(3, 100), &provider, Prng::from_seed(1));
    assert!(relay.relay_attestation(vec![1, 2], 9).is_err());
    assert!(provider.pushes.borrow().is_empty());
    assert!(relay.take_events().is_empty());
    assert!(relay.process(RelayCommand::RelayAttestation { attestation_data: vec![1], subnet_id: 2 }));
    let events = relay.take_events();
    assert_eq!(events.len(), 1);
    match &events[0] {
        RelayEvent::Error(m) => assert_eq!(m, "RLN proof error: no proof"),
        other => panic!("unexpected event {:?}", other),
    }
}

#[test]
fn a_repeated_message_is_received_once() {
    let provider = MockWakuProvider::new();
    let mut relay = FriendRelay::new(&config(3, 100), &provider, Prng::from_seed(1));
    let bytes = encode_proven_message(&envelope(123, 1)).unwrap();
    assert!(relay.handle_incoming(&bytes, "friend1"));
    assert!(!relay.handle_incoming(&bytes, "friend2"));
    let events = relay.take_events();
    assert_eq!(events.len(), 1);
    match &events[0] {
        RelayEvent::MessageReceived { message_id, from_friend } => {
            assert_eq!(message_id, "123_3");
            assert_eq!(from_friend, "friend1");
        }
        other => panic!("unexpected event {:?}", other),
    }
    assert_eq!(relay.get_stats().messages_received, 1);
    assert_eq!(relay.get_stats().messages_dropped, 1);
}

#[test]
fn the_cache_drops_a_known_identifier_under_a_new_nullifier() {
    let provider = MockWakuProvider::new();
    let mut relay = FriendRelay::new(&config(3, 100), &provider, Prng::from_seed(1));
    assert!(relay.accept_incoming(&envelope(123, 1), true, "friend1", 1_000));
    assert!(!relay.accept_incoming(&envelope(123, 2), true, "friend2", 2_000));
    assert!(relay.accept_incoming(&envelope(124, 3), true, "friend2", 2_000));
    assert!(relay.accept_incoming(&envelope(123, 4), true, "friend2", 1_000 + 300_001));
    assert_eq!(relay.take_events().len(), 3);
}

#[test]
fn bad_input_from_friends_is_dropped() {
    let provider = MockWakuProvider::new();
    let mut relay = FriendRelay::new(&config(3, 100), &provider, Prng::from_seed(1));
    assert!(!relay.handle_incoming(&vec![1, 2, 3], "friend1"));
    assert_eq!(relay.get_stats().messages_dropped, 0);
    *provider.verdict.borrow_mut() = false;
    let bytes = encode_proven_message(&envelope(5, 5)).unwrap();
    assert!(!relay.handle_incoming(&bytes, "friend1"));
    assert_eq!(relay.get_stats().messages_dropped, 1);
    assert!(relay.take_events().is_empty());
    *provider.verdict.borrow_mut() = true;
    assert!(relay.handle_incoming(&bytes, "friend1"));
}

#[test]
fn friends_can_be_added_and_removed() {
    let provider = MockWakuProvider::new();
    let mut relay = FriendRelay::new(&config(2, 100), &provider, Prng::from_seed(1));
    assert!(relay.handle_command(RelayCommand::AddFriend(friend(3))).is_ok());
    assert!(relay.handle_command(RelayCommand::AddFriend(friend(3))).is_ok());
    assert_eq!(relay.friend_count(), 3);
    assert!(relay.handle_command(RelayCommand::RemoveFriend("friend1".to_string())).is_ok());
    assert!(relay.handle_command(RelayCommand::RemoveFriend("nobody".to_string())).is_ok());
    assert_eq!(relay.friend_count(), 2);
    assert!(!relay.has_friend("friend1"));
    assert!(relay.has_friend("friend3"));
    let events = relay.take_events();
    assert_eq!(events.len(), 4);
    assert!(matches!(&events[0], RelayEvent::FriendConnected(id) if id == "friend3"));
    assert!(matches!(&events[2], RelayEvent::FriendDisconnected(id) if id == "friend1"));
    assert!(matches!(&events[3], RelayEvent::FriendDisconnected(id) if id == "nobody"));
    assert_eq!(relay.get_stats().friends_connected, 2);
}

#[test]
fn update_rln_and_stop() {
    let provider = MockWakuProvider::new();
    let mut relay = FriendRelay::new(&config(3, 1), &provider, Prng::from_seed(1));
    assert!(relay.relay_attestation(vec![1], 1).is_ok());
    assert!(relay.relay_attestation(vec![1], 1).is_err());
    assert!(relay.handle_command(RelayCommand::UpdateRln { rate_limit: 5, epoch: 100 }).is_ok());
    assert!(relay.relay_attestation(vec![1], 1).is_ok());
    assert!(relay.handle_command(RelayCommand::GetStats).is_ok());
    relay.take_events();
    assert!(!relay.process(RelayCommand::Stop));
    assert!(relay.take_events().is_empty());
}

#[test]
fn helpers_have_exact_values() {
    assert_eq!(relay_topic(0), "/privacy-relay/0");
    assert_eq!(relay_topic(63), "/privacy-relay/63");
    let message = outbound_message(vec![1], 7, 1_700_000_000_000_000_000);
    assert_eq!(message.message_id, "1700000000000000000_7");
    assert_eq!(message.timestamp, 1_700_000_000_000_000_000);
    assert!(message.origin_hint.is_none());
    assert_eq!(count_delivered(&vec![true, false, true, true, false]), 3);
    assert_eq!(count_delivered(&vec![]), 0);
    let stats = stealth_sidecar::friend_relay::RelayStats {
        messages_sent: 4,
        messages_received: 0,
        friends_connected: 0,
        total_latency_ms: 10,
        rate_limit_violations: 0,
        messages_dropped: 0,
        push_failures: 0,
    };
    assert_eq!(stats.average_latency_ms(), 2);
}

#[test]
fn sealing_removes_an_origin_hint() {
    let mut message = outbound_message(vec![1], 7, 5);
    message.origin_hint = Some("me".to_string());
    let proof = RlnProof { nullifier: bytes32(1), proof: vec![], epoch: 1, signal_hash: bytes32(2) };
    let sealed = seal(message, proof);
    assert!(sealed.message.origin_hint.is_none());
    assert_eq!(sealed.sender_id, "stealth_sidecar");
}

#[test]
fn counters_stop_at_their_largest_value() {
    assert_eq!(capped_add(1, 2), 3);
    assert_eq!(capped_add(u64::MAX - 1, 1), u64::MAX);
    assert_eq!(capped_add(u64::MAX - 1, 2), u64::MAX);
    assert_eq!(capped_add(u64::MAX, u64::MAX), u64::MAX);
}

#[test]
fn the_cache_of_the_relay_can_be_sized() {
    let provider = MockWakuProvider::new();
    let mut relay =
        FriendRelay::with_seen_cache(&config(3, 100), &provider, Prng::from_seed(1), 1, 50);
    assert!(relay.accept_incoming(&envelope(1, 1), true, "friend1", 0));
    assert!(relay.accept_incoming(&envelope(2, 2), true, "friend1", 10));
    assert!(relay.accept_incoming(&envelope(1, 3), true, "friend1", 20));
    assert!(!relay.accept_incoming(&envelope(1, 4), true, "friend1", 70));
    assert!(relay.accept_incoming(&envelope(1, 5), true, "friend1", 71));
}

#[test]
fn no_origin_hint_leaves_the_node() {
    let mut message = outbound_message(vec![4, 5], 7, 99);
    message.origin_hint = Some("validator-1".to_string());
    let proof = RlnProof { nullifier: bytes32(1), proof: vec![8], epoch: 3, signal_hash: bytes32(2) };
    let bytes = egress_bytes(message, proof).unwrap();
    let read = decode_proven_message(&bytes).unwrap();
    assert!(read.message.origin_hint.is_none());
    assert_eq!(read.sender_id, "stealth_sidecar");
    assert_eq!(read.message.message_id, "99_7");
    assert_eq!(read.message.attestation_data, vec![4, 5]);
    assert_eq!(read.rln_proof.epoch, 3);
    assert!(!bytes.windows(11).any(|w| w == b"validator-1"));
}

fn records(relay: &FriendRelay<&MockWakuProvider>) -> Vec<(String, String, String)> {
    relay
        .get_friends()
        .iter()
        .map(|f| (f.peer_id.clone(), f.multiaddr.clone(), f.public_key.clone()))
        .collect()
}

fn record(n: u8) -> (String, String, String) {
    let f = friend(n);
    (f.peer_id, f.multiaddr, f.public_key)
}

#[test]
fn friends_are_kept_as_they_are_configured() {
    let provider = MockWakuProvider::new();
    let mut cfg = config(3, 100);
    let mut again = friend(1);
    again.multiaddr = "/ip4/10.0.0.1/tcp/7000".to_string();
    again.public_key = "newer".to_string();
    cfg.friend_nodes.push(again);
    let relay = FriendRelay::new(&cfg, &provider, Prng::from_seed(1));
    assert_eq!(
        records(&relay),
        vec![
            (
                "friend1".to_string(),
                "/ip4/10.0.0.1/tcp/7000".to_string(),
                "newer".to_string()
            ),
            record(2),
            record(3),
        ]
    );
}

#[test]
fn adding_and_removing_leaves_the_other_friends_alone() {
    let provider = MockWakuProvider::new();
    let mut relay = FriendRelay::new(&config(3, 100), &provider, Prng::from_seed(1));
    relay.add_friend(friend(4));
    assert_eq!(records(&relay), vec![record(1), record(2), record(3), record(4)]);
    let mut moved = friend(2);
    moved.multiaddr = "/ip4/10.0.0.2/tcp/7000".to_string();
    relay.add_friend(moved);
    assert_eq!(
        records(&relay),
        vec![
            record(1),
            (
                "friend2".to_string(),
                "/ip4/10.0.0.2/tcp/7000".to_string(),
                "pub2".to_string()
            ),
            record(3),
            record(4),
        ]
    );
    relay.remove_friend("friend1".to_string());
    relay.remove_friend("nobody".to_string());
    assert_eq!(records(&relay).len(), 3);
    assert_eq!(records(&relay)[1], record(3));
    assert_eq!(records(&relay)[2], record(4));
}

#[test]
fn the_fanout_order_names_every_friend_once() {
    let provider = MockWakuProvider::new();
    let mut relay = FriendRelay::new(&config(5, 100), &provider, Prng::from_seed(7));
    for _ in 0..20 {
        let mut order = relay.fanout_order();
        assert_eq!(order.len(), 5);
        order.sort();
        assert_eq!(order, vec![0, 1, 2, 3, 4]);
    }
    let mut nobody = FriendRelay::new(&config(0, 100), &provider, Prng::from_seed(7));
    assert!(nobody.fanout_order().is_empty());
    assert_eq!(relay.friend_count(), 5);
    assert!(relay.take_events().is_empty());
}

#[test]
fn a_new_relay_has_every_counter_at_zero() {
    let provider = MockWakuProvider::new();
    let relay = FriendRelay::new(&config(3, 100), &provider, Prng::from_seed(7));
    let stats = relay.get_stats();
    assert_eq!(stats.messages_dropped, 0);
    assert_eq!(stats.push_failures, 0);
    assert_eq!(stats.total_latency_ms, 0);
    assert_eq!(stats.friends_connected, 3);
}
