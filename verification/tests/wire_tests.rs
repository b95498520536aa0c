use stealth_sidecar::messages::{ProvenMessage, RelayMessage, RlnProof};
use stealth_sidecar::rate_limiter::Bytes32;
use stealth_sidecar::wire::{
    decode_proven_message, encode_proven_message, encode_relay_message, read_field, write_field,
};

fn sample(hint: Option<&str>) -> ProvenMessage {
    let mut nullifier = [0u8; 32];
    nullifier[0] = 0xaa;
    let mut signal = [0u8; 32];
    signal[31] = 0xbb;
    ProvenMessage {
        message: RelayMessage {
            message_id: "17_3".to_string(),
            attestation_data: vec![1, 2, 3],
            subnet_id: 3,
            timestamp: 17,
            origin_hint: hint.map(|h| h.to_string()),
        },
        rln_proof: RlnProof {
            nullifier: Bytes32(nullifier),
            proof: vec![9, 8],
            epoch: 0x0102,
            signal_hash: Bytes32(signal),
        },
        sender_id: "stealth_sidecar".to_string(),
    }
}

#[test]
fn relay_message_bytes_are_exact() {
    let bytes = encode_relay_message(&sample(None).message).unwrap();
    let expected: Vec<u8> = vec![
        4, 0, 0, 0, b'1', b'7', b'_', b'3', // identifier
        3, 0, 0, 0, 1, 2, 3, // attestation
        3, // subnet
        17, 0, 0, 0, 0, 0, 0, 0, // time
        0, // no hint
    ];
    assert_eq!(bytes, expected);
}

#[test]
fn envelope_round_trip() {
    for hint in [None, Some("h\u{e9}llo")] {
        let envelope = sample(hint);
        let bytes = encode_proven_message(&envelope).unwrap();
        let length = u32::from_le_bytes([bytes[0], bytes[1], bytes[2], bytes[3]]) as usize;
        assert_eq!(length + 4, bytes.len());
        let back = decode_proven_message(&bytes).unwrap();
        assert_eq!(back.message.message_id, envelope.message.message_id);
        assert_eq!(back.message.attestation_data, envelope.message.attestation_data);
        assert_eq!(back.message.subnet_id, envelope.message.subnet_id);
        assert_eq!(back.message.timestamp, envelope.message.timestamp);
        assert_eq!(back.message.origin_hint, envelope.message.origin_hint);
        assert_eq!(back.rln_proof.nullifier.0, envelope.rln_proof.nullifier.0);
        assert_eq!(back.rln_proof.proof, envelope.rln_proof.proof);
        assert_eq!(back.rln_proof.epoch, envelope.rln_proof.epoch);
        assert_eq!(back.rln_proof.signal_hash.0, envelope.rln_proof.signal_hash.0);
        assert_eq!(back.sender_id, envelope.sender_id);
    }
}

#[test]
fn damaged_envelopes_are_refused() {
    let bytes = encode_proven_message(&sample(None)).unwrap();
    assert!(decode_proven_message(&vec![]).is_none());
    assert!(decode_proven_message(&bytes[..bytes.len() - 1].to_vec()).is_none());
    let mut longer = bytes.clone();
    longer.push(0);
    assert!(decode_proven_message(&longer).is_none());
    let mut bad_flag = bytes.clone();
    let flag_at = 4 + 8 + 7 + 1 + 8;
    assert_eq!(bad_flag[flag_at], 0);
    bad_flag[flag_at] = 2;
    assert!(decode_proven_message(&bad_flag).is_none());
    let mut bad_text = bytes.clone();
    bad_text[8] = 0xff;
    assert!(decode_proven_message(&bad_text).is_none());
}

#[test]
fn fields_are_length_prefixed() {
    let mut out = vec![7u8];
    assert!(write_field(&mut out, &vec![1, 2]));
    assert_eq!(out, vec![7, 2, 0, 0, 0, 1, 2]);
    let (content, next) = read_field(&out, 1).unwrap();
    assert_eq!(content, vec![1, 2]);
    assert_eq!(next, 7);
    assert!(read_field(&out, 2).is_none());
    assert!(read_field(&vec![5, 0, 0, 0, 1], 0).is_none());
}
