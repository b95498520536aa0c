use stealth_sidecar::common::{
    next_epoch_boundary, next_epoch_boundary_at, random_subnet_selection,
    random_subnet_selection_with, seconds_to_wait,
    validate_config, EpochInfo, FriendNodeConfig, MandatorySubnetSource, StealthConfig,
    StealthError, SubnetId,
};
use stealth_sidecar::prng::Prng;

fn friend(n: u8) -> FriendNodeConfig {
    FriendNodeConfig {
        peer_id: format!("friend{}", n),
        multiaddr: format!("/ip4/127.0.0.1/tcp/6000{}", n),
        public_key: format!("pub{}", n),
    }
}

#[test]
fn test_subnet_id_creation() {
    assert!(SubnetId::new(0).is_ok());
    assert!(SubnetId::new(63).is_ok());
    assert!(SubnetId::new(64).is_err());
}

#[test]
fn test_epoch_calculations() {
    let epoch_info = EpochInfo {
        epoch: 10,
        slot: 320,
        slots_per_epoch: 32,
        seconds_per_slot: 12,
    };

    assert_eq!(epoch_info.slots_remaining_in_epoch(), 32);
    assert_eq!(epoch_info.seconds_until_next_epoch(), 384);
}

#[test]
fn test_random_subnet_selection() {
    let subnets = random_subnet_selection(8);
    assert_eq!(subnets.len(), 8);

    let mut unique_subnets = subnets.clone();
    unique_subnets.sort_by_key(|s| s.0);
    unique_subnets.dedup();
    assert_eq!(unique_subnets.len(), 8);
}

#[test]
fn subnet_id_error_names_the_identifier() {
    match SubnetId::new(64) {
        Err(StealthError::Config(message)) => {
            assert_eq!(message, "Invalid subnet ID: 64. Must be 0-63");
        }
        other => panic!("unexpected result: {:?}", other),
    }
    match SubnetId::new(255) {
        Err(e) => assert_eq!(
            e.message(),
            "Configuration error: Invalid subnet ID: 255. Must be 0-63"
        ),
        Ok(_) => panic!("255 must be refused"),
    }
}

#[test]
fn all_subnets_are_the_64_in_order() {
    let all = SubnetId::all_subnets();
    assert_eq!(all.len(), 64);
    for (i, s) in all.iter().enumerate() {
        assert_eq!(s.0 as usize, i);
    }
}

#[test]
fn topic_names() {
    assert_eq!(
        SubnetId(42).as_topic_name("abcd1234"),
        "/eth2/abcd1234/beacon_attestation_42/ssz_snappy"
    );
    assert_eq!(
        SubnetId(0).as_topic_name("7a7b8b7f"),
        "/eth2/7a7b8b7f/beacon_attestation_0/ssz_snappy"
    );
}

#[test]
fn epoch_from_slot_divides() {
    assert_eq!(EpochInfo::epoch_from_slot(320, 32), 10);
    assert_eq!(EpochInfo::epoch_from_slot(351, 32), 10);
    assert_eq!(EpochInfo::epoch_from_slot(352, 32), 11);
}

#[test]
fn seconds_until_next_epoch_mid_epoch() {
    let info = EpochInfo { epoch: 10, slot: 330, slots_per_epoch: 32, seconds_per_slot: 12 };
    assert_eq!(info.slots_remaining_in_epoch(), 22);
    assert_eq!(info.seconds_until_next_epoch(), 264);
    assert_eq!(info.checked_seconds_until_next_epoch(), Some(264));
    let broken = EpochInfo { epoch: 0, slot: 5, slots_per_epoch: 0, seconds_per_slot: 12 };
    assert_eq!(broken.checked_seconds_until_next_epoch(), None);
    let huge = EpochInfo { epoch: 0, slot: 0, slots_per_epoch: 32, seconds_per_slot: u64::MAX };
    assert_eq!(huge.checked_seconds_until_next_epoch(), None);
}

#[test]
fn next_boundary_adds_the_remaining_seconds() {
    let info = EpochInfo { epoch: 10, slot: 320, slots_per_epoch: 32, seconds_per_slot: 12 };
    assert_eq!(next_epoch_boundary_at(&info, 1_000), Some(1_384));
    assert_eq!(next_epoch_boundary_at(&info, i64::MAX), None);
    assert_eq!(next_epoch_boundary_at(&info, -384), Some(0));
}

#[test]
fn default_config_values() {
    let config = StealthConfig::default();
    assert_eq!(config.lighthouse_http_api, "http://localhost:5052");
    assert_eq!(config.extra_subnets_per_epoch, 8);
    assert!(config.friend_nodes.is_empty());
    assert_eq!(config.waku_config.nwaku_rpc_url, "http://localhost:8545");
    assert_eq!(config.waku_config.rate_limit_per_epoch, 100);
    assert!(config.metrics.enabled);
    assert_eq!(config.metrics.listen_port, 9090);
    assert_eq!(config.network.listen_port, 9000);
}

#[test]
fn config_with_fewer_than_three_friends_is_rejected() {
    let mut config = StealthConfig::default();
    config.friend_nodes = vec![friend(1), friend(2)];
    match validate_config(&config) {
        Err(StealthError::Config(message)) => {
            assert_eq!(message, "At least 3 friend nodes required for k-anonymity.");
        }
        other => panic!("unexpected result: {:?}", other),
    }
    config.friend_nodes.push(friend(3));
    assert!(validate_config(&config).is_ok());
}

#[test]
fn config_with_too_many_extras_is_rejected() {
    let mut config = StealthConfig::default();
    config.friend_nodes = vec![friend(1), friend(2), friend(3)];
    config.extra_subnets_per_epoch = 32;
    assert!(validate_config(&config).is_ok());
    config.extra_subnets_per_epoch = 33;
    match validate_config(&config) {
        Err(StealthError::Config(message)) => {
            assert_eq!(message, "Too many extra subnets per epoch. Maximum is 32.");
        }
        other => panic!("unexpected result: {:?}", other),
    }
}

#[test]
fn config_with_invalid_static_subnet_is_rejected() {
    let mut config = StealthConfig::default();
    config.friend_nodes = vec![friend(1), friend(2), friend(3)];
    config.mandatory_subnet_source = MandatorySubnetSource::Static(vec![SubnetId(0), SubnetId(64)]);
    match validate_config(&config) {
        Err(StealthError::Config(message)) => {
            assert_eq!(message, "Mandatory subnet IDs must be 0-63.");
        }
        other => panic!("unexpected result: {:?}", other),
    }
    config.mandatory_subnet_source = MandatorySubnetSource::Static(vec![SubnetId(0), SubnetId(63)]);
    assert!(validate_config(&config).is_ok());
}

#[test]
fn seeded_selection_is_reproducible_and_shuffled() {
    let mut a = Prng::from_seed(7);
    let mut b = Prng::from_seed(7);
    let first = random_subnet_selection_with(64, &mut a);
    let second = random_subnet_selection_with(64, &mut b);
    assert_eq!(first, second);
    assert_eq!(first.len(), 64);
    assert_ne!(first, SubnetId::all_subnets());
    let mut sorted = first.clone();
    sorted.sort_by_key(|s| s.0);
    assert_eq!(sorted, SubnetId::all_subnets());
    assert_eq!(random_subnet_selection_with(100, &mut a).len(), 64);
    assert_eq!(random_subnet_selection_with(0, &mut a).len(), 0);
}

#[test]
fn error_messages_carry_their_kind() {
    assert_eq!(StealthError::Network("x".to_string()).message(), "Network error: x");
    assert_eq!(StealthError::ProviderApi("x".to_string()).message(), "Provider API error: x");
    assert_eq!(StealthError::RlnProof("x".to_string()).message(), "RLN proof error: x");
    assert_eq!(
        StealthError::SubnetManagement("x".to_string()).message(),
        "Subnet management error: x"
    );
    assert_eq!(StealthError::Internal("x".to_string()).message(), "Internal error: x");
}

#[test]
fn the_next_boundary_lies_one_epoch_rest_after_the_clock() {
    let info = EpochInfo { epoch: 10, slot: 320, slots_per_epoch: 32, seconds_per_slot: 12 };
    let before = std::time::SystemTime::now()
        .duration_since(std::time::UNIX_EPOCH)
        .unwrap()
        .as_secs() as i64;
    let boundary = next_epoch_boundary(&info).unwrap();
    let after = std::time::SystemTime::now()
        .duration_since(std::time::UNIX_EPOCH)
        .unwrap()
        .as_secs() as i64;
    assert!(before + 384 <= boundary && boundary <= after + 384);

    let broken = EpochInfo { epoch: 0, slot: 5, slots_per_epoch: 0, seconds_per_slot: 12 };
    assert_eq!(next_epoch_boundary(&broken), None);
}

#[test]
fn a_random_selection_has_the_size_asked_for_up_to_all_subnets() {
    assert!(random_subnet_selection(0).is_empty());
    assert_eq!(random_subnet_selection(1).len(), 1);
    assert_eq!(random_subnet_selection(64).len(), 64);
    let all = random_subnet_selection(65);
    assert_eq!(all.len(), 64);
    let mut ids: Vec<u8> = all.iter().map(|s| s.0).collect();
    ids.sort();
    assert_eq!(ids, (0..64).collect::<Vec<u8>>());
}

#[test]
fn a_timer_waits_for_the_time_left_and_at_least_a_second() {
    assert_eq!(seconds_to_wait(1_384, 1_000), 384);
    assert_eq!(seconds_to_wait(1_000, 1_000), 1);
    assert_eq!(seconds_to_wait(1_000, 2_000), 1);
    assert_eq!(seconds_to_wait(1_001, 1_000), 1);
    assert_eq!(seconds_to_wait(1_002, 1_000), 2);
    assert_eq!(seconds_to_wait(i64::MAX, i64::MIN), u64::MAX);
    assert_eq!(seconds_to_wait(i64::MIN, i64::MAX), 1);
}
