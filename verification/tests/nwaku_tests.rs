use stealth_sidecar::common::StealthError;
use stealth_sidecar::messages::RlnProof;
use stealth_sidecar::nwaku::{
    assemble_proof, digest_text, encode_base64, interpret_rpc_response, proof_from_response,
    proof_request, push_request, strip_hex_prefix, verify_request,
};
use stealth_sidecar::rate_limiter::Bytes32;

fn digest(first: u8) -> Bytes32 {
    let mut bytes = [0u8; 32];
    bytes[0] = first;
    bytes[31] = 0xff;
    Bytes32(bytes)
}

fn hex_of(first: &str) -> String {
    format!("{}{}ff", first, "00".repeat(30))
}

#[test]
fn a_proof_is_read_from_an_answer() {
    let proof = proof_from_response(&format!("0x{}", hex_of("ab")), "AQIDBA==", &hex_of("CD"), 9).unwrap();
    assert_eq!(proof.nullifier.0, digest(0xab).0);
    assert_eq!(proof.signal_hash.0, digest(0xcd).0);
    assert_eq!(proof.proof, vec![1, 2, 3, 4]);
    assert_eq!(proof.epoch, 9);
}

#[test]
fn faults_of_an_answer_are_named() {
    let good = hex_of("ab");
    let cases: Vec<(String, &str, String, &str)> = vec![
        ("zz".to_string(), "AQID", good.clone(), "Invalid nullifier hex"),
        ("abc".to_string(), "AQID", good.clone(), "Invalid nullifier hex"),
        ("abcd".to_string(), "AQID", good.clone(), "Invalid nullifier length"),
        (good.clone(), "not base64!", good.clone(), "Invalid proof base64"),
        (good.clone(), "AQID", "0xq".to_string(), "Invalid signal hash hex"),
        (good.clone(), "AQID", "".to_string(), "Invalid signal hash length"),
        ("zz".to_string(), "!", "zz".to_string(), "Invalid nullifier hex"),
    ];
    for (nullifier, proof, signal, expected) in cases {
        match proof_from_response(&nullifier, proof, &signal, 1) {
            Err(StealthError::ProviderApi(m)) => assert_eq!(m, expected),
            other => panic!("unexpected result {:?}", other),
        }
    }
}

#[test]
fn assembling_from_decoded_parts() {
    let ok = assemble_proof(Some(vec![1; 32]), Some(vec![2]), Some(vec![3; 32]), 4).unwrap();
    assert_eq!(ok.nullifier.0, [1u8; 32]);
    assert_eq!(ok.proof, vec![2]);
    assert_eq!(ok.signal_hash.0, [3u8; 32]);
    assert_eq!(ok.epoch, 4);
    assert!(assemble_proof(None, Some(vec![2]), Some(vec![3; 32]), 4).is_err());
    assert!(assemble_proof(Some(vec![1; 31]), Some(vec![2]), Some(vec![3; 32]), 4).is_err());
    assert!(assemble_proof(Some(vec![1; 32]), None, Some(vec![3; 32]), 4).is_err());
    assert!(assemble_proof(Some(vec![1; 32]), Some(vec![2]), None, 4).is_err());
    assert!(assemble_proof(Some(vec![1; 32]), Some(vec![2]), Some(vec![3; 33]), 4).is_err());
}

#[test]
fn hex_prefixes_are_stripped() {
    assert_eq!(strip_hex_prefix("0xabcd"), "abcd");
    assert_eq!(strip_hex_prefix("0x0x0xab"), "ab");
    assert_eq!(strip_hex_prefix("abcd"), "abcd");
    assert_eq!(strip_hex_prefix("0x"), "");
    assert_eq!(strip_hex_prefix("0"), "0");
    assert_eq!(strip_hex_prefix(""), "");
    assert_eq!(strip_hex_prefix("0X12"), "0X12");
    assert_eq!(strip_hex_prefix("0x\u{e9}0x"), "\u{e9}0x");
}

#[test]
fn requests_are_encoded() {
    assert_eq!(encode_base64(&b"hello world~".to_vec()).unwrap(), "aGVsbG8gd29ybGR+");
    assert_eq!(encode_base64(&vec![]).unwrap(), "");
    assert_eq!(
        digest_text(&digest(0x0a)),
        format!("0x0a{}ff", "00".repeat(30))
    );
    let request = proof_request(&vec![1, 2, 3, 4], 7).unwrap();
    assert_eq!(request.message, "AQIDBA==");
    assert_eq!(request.epoch, 7);
    let proof = RlnProof { nullifier: digest(1), proof: vec![1, 2, 3], epoch: 5, signal_hash: digest(2) };
    let verify = verify_request(&proof, &vec![255]).unwrap();
    assert_eq!(verify.proof, "AQID");
    assert_eq!(verify.message, "/w==");
    assert_eq!(verify.nullifier, format!("0x01{}ff", "00".repeat(30)));
    assert_eq!(verify.signal_hash, format!("0x02{}ff", "00".repeat(30)));
    assert_eq!(verify.epoch, 5);
    let push = push_request("/privacy-relay/3", &vec![1], None, 99).unwrap();
    assert_eq!(push.pubsub_topic, "/privacy-relay/3");
    assert_eq!(push.payload, "AQ==");
    assert_eq!(push.timestamp, 99);
    assert_eq!(push_request("t", &vec![1], Some(5), 99).unwrap().timestamp, 5);
}

#[test]
fn answers_of_remote_calls() {
    assert_eq!(interpret_rpc_response(Some(5u64), None).unwrap(), 5);
    match interpret_rpc_response(Some(5u64), Some("denied".to_string())) {
        Err(StealthError::ProviderApi(m)) => assert_eq!(m, "RPC error: denied"),
        other => panic!("unexpected result {:?}", other),
    }
    match interpret_rpc_response::<u64>(None, None) {
        Err(StealthError::ProviderApi(m)) => assert_eq!(m, "No result in RPC response"),
        other => panic!("unexpected result {:?}", other),
    }
}
