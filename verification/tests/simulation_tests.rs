use stealth_sidecar::prng::Prng;
use stealth_sidecar::sidecar::GossipMessage;
use stealth_sidecar::simulation::{
    generate_mock_attestation, generate_mock_block, simulate_gossip_message, simulated_message,
};

#[test]
fn test_mock_data_generation() {
    let attestation = generate_mock_attestation();
    assert_eq!(attestation.len(), 96);
    assert_eq!(attestation[0], 0x01);

    let block = generate_mock_block();
    assert!(block.len() >= 1024);
    assert!(block.len() <= 10240);
    assert_eq!(&block[0..4], &[0x42, 0x45, 0x41, 0x43]);
}

#[test]
fn mock_data_is_random_beyond_its_header() {
    let mut rng = Prng::from_seed(1);
    let a = rng.random_bytes(64);
    let b = rng.random_bytes(64);
    assert_eq!(a.len(), 64);
    assert_ne!(a, vec![0u8; 64]);
    assert_ne!(a, b);
    for _ in 0..1000 {
        assert!(rng.below(7) < 7);
    }
    assert_eq!(rng.below(1), 0);
    assert!(generate_mock_attestation()[1] < 64);
}

#[test]
fn the_draw_decides_the_kind_of_message() {
    let make = |roll| simulated_message(roll, 5, vec![1], vec![2], "peer".to_string(), vec![3]);
    for roll in 0..=6 {
        assert!(matches!(make(roll), GossipMessage::Attestation { subnet_id: 5, .. }));
    }
    for roll in 7..=8 {
        assert!(matches!(make(roll), GossipMessage::Block { .. }));
    }
    match make(9) {
        GossipMessage::Other { topic, data, .. } => {
            assert_eq!(topic, "/eth2/mainnet/voluntary_exit/ssz_snappy");
            assert_eq!(data, vec![1, 2, 3, 4, 5]);
        }
        other => panic!("unexpected message {:?}", other),
    }
}

#[test]
fn simulated_messages_come_in_all_kinds() {
    let mut rng = Prng::from_seed(3);
    let mut kinds = [0u32; 3];
    for _ in 0..300 {
        match simulate_gossip_message(&mut rng, "peer".to_string()) {
            GossipMessage::Attestation { data, subnet_id, .. } => {
                assert_eq!(data.len(), 96);
                assert!(subnet_id < 64);
                kinds[0] += 1;
            }
            GossipMessage::Block { data, .. } => {
                assert_eq!(&data[0..4], b"BEAC");
                kinds[1] += 1;
            }
            GossipMessage::Other { .. } => kinds[2] += 1,
        }
    }
    assert!(kinds[0] > kinds[1] && kinds[1] > kinds[2] && kinds[2] > 0);
}
