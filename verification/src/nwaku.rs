//! What a client of an nwaku node computes around its remote calls: the parameters of each
//! call, and the proof that the answer to a request for one holds.

use crate::common::StealthError;
use crate::messages::RlnProof;
use crate::rate_limiter::Bytes32;
use crate::text::{chars_of, matches_at};
use base64::engine::general_purpose::STANDARD;
use base64::Engine;
use vstd::prelude::*;
use vstd::string::*;

verus! {

/// The text that the standard base64 alphabet, with padding, gives for `data`.
pub uninterp spec fn base64_text(data: Seq<u8>) -> Seq<char>;

/// The bytes that `text` stands for in the standard base64 alphabet, with padding, if it
/// stands for any.
pub uninterp spec fn base64_bytes(text: Seq<char>) -> Option<Seq<u8>>;

/// The digit that stands for `v` in lower-case hexadecimal.
pub open spec fn hex_digit(v: int) -> char
    recommends
        0 <= v < 16,
{
    if v < 10 {
        ((48 + v) as u8) as char
    } else {
        ((87 + v) as u8) as char
    }
}

/// The value of a hexadecimal digit of either case.
pub open spec fn hex_value(c: char) -> Option<int> {
    let code = c as u32 as int;
    if 48 <= code <= 57 {
        Some(code - 48)
    } else if 97 <= code <= 102 {
        Some(code - 87)
    } else if 65 <= code <= 70 {
        Some(code - 55)
    } else {
        None
    }
}

/// The lower-case hexadecimal text of `data`: two digits for each byte, the high one first.
pub open spec fn hex_text(data: Seq<u8>) -> Seq<char> {
    Seq::new(
        2 * data.len(),
        |i: int|
            if i % 2 == 0 {
                hex_digit(data[i / 2] as int / 16)
            } else {
                hex_digit(data[i / 2] as int % 16)
            },
    )
}

/// Whether `text` is hexadecimal text for whole bytes.
pub open spec fn is_hex(text: Seq<char>) -> bool {
    &&& text.len() % 2 == 0
    &&& forall|i: int| 0 <= i < text.len() ==> hex_value(#[trigger] text[i]) is Some
}

/// The bytes that hexadecimal text stands for, if it stands for any.
pub open spec fn hex_bytes(text: Seq<char>) -> Option<Seq<u8>> {
    if is_hex(text) {
        Some(
            Seq::new(
                text.len() / 2,
                |i: int| (hex_value(text[2 * i])->0 * 16 + hex_value(text[2 * i + 1])->0) as u8,
            ),
        )
    } else {
        None
    }
}

/// `Engine::encode` of the base64 crate with its standard engine: the text that the crate
/// gives for `data`. The crate stops the program where the length of the text does not fit
/// in the machine's word, so `data` may be at most half as long.
#[verifier::external_body]
fn base64_encode(data: &Vec<u8>) -> (text: String)
    requires
        data@.len() <= usize::MAX / 2,
    ensures
        text@ == base64_text(data@),
{
    STANDARD.encode(data)
}

/// `Engine::decode` of the base64 crate with its standard engine: the bytes that the crate
/// reads from `text`, or nothing where it refuses the text.
#[verifier::external_body]
fn base64_decode(text: &str) -> (data: Option<Vec<u8>>)
    ensures
        data is Some == base64_bytes(text@) is Some,
        data matches Some(bytes) ==> Some(bytes@) == base64_bytes(text@),
{
    STANDARD.decode(text).ok()
}

/// `hex::encode`: two lower-case hexadecimal digits for each byte, the high one first.
#[verifier::external_body]
fn hex_encode(data: &Vec<u8>) -> (text: String)
    ensures
        text@ == hex_text(data@),
{
    hex::encode(data)
}

/// `hex::decode`: the bytes of hexadecimal text of either case, or nothing where the text has
/// an odd length or holds anything but hexadecimal digits.
#[verifier::external_body]
fn hex_decode(text: &str) -> (data: Option<Vec<u8>>)
    ensures
        data is Some == hex_bytes(text@) is Some,
        data matches Some(bytes) ==> Some(bytes@) == hex_bytes(text@),
{
    hex::decode(text).ok()
}

/// `text` without every `0x` that it starts with.
pub open spec fn without_hex_prefix(text: Seq<char>) -> Seq<char>
    decreases text.len(),
{
    if "0x"@.len() == 2 && "0x"@.is_prefix_of(text) {
        without_hex_prefix(text.skip(2))
    } else {
        text
    }
}

/// Removes every `0x` that `text` starts with.
pub fn strip_hex_prefix(text: &str) -> (rest: &str)
    ensures
        rest@ == without_hex_prefix(text@),
{
    proof {
        reveal_strlit("0x");
    }
    let chars = chars_of(text);
    let marker = chars_of("0x");
    let mut at: usize = 0;
    proof {
        assert(chars@.skip(0) =~= chars@);
    }
    while chars.len() - at >= 2 && matches_at(&chars, at, &marker)
        invariant
            at <= chars.len(),
            marker@ == "0x"@,
            marker@.len() == 2,
            without_hex_prefix(chars@) == without_hex_prefix(chars@.skip(at as int)),
        decreases chars.len() - at,
    {
        proof {
            assert(chars@.skip(at as int).skip(2) =~= chars@.skip(at + 2));
        }
        at = at + 2;
    }
    proof {
        let rest = chars@.skip(at as int);
        if marker@.is_prefix_of(rest) {
            assert(rest.len() >= 2);
        }
        assert(rest =~= chars@.subrange(at as int, chars@.len() as int));
    }
    text.substring_char(at, chars.len())
}

/// The base64 text of `data`, or nothing where `data` is too long for the encoder.
pub fn encode_base64(data: &Vec<u8>) -> (text: Option<String>)
    ensures
        data@.len() <= usize::MAX / 2 ==> (text matches Some(t) && t@ == base64_text(data@)),
        data@.len() > usize::MAX / 2 ==> text is None,
{
    if data.len() <= usize::MAX / 2 {
        Some(base64_encode(data))
    } else {
        None
    }
}

/// A 32-byte value in the form in which it is sent: `0x` and its hexadecimal text.
pub fn digest_text(value: &Bytes32) -> (text: String)
    ensures
        text@ == "0x"@ + hex_text(value@),
{
    let mut text = String::from_str("0x");
    text.append(hex_encode(&value.to_vec()).as_str());
    text
}

/// Which part of an answer is at fault.
#[derive(Debug, Clone, Copy, PartialEq, Eq, Structural)]
pub enum ProofFault {
    NullifierHex,
    NullifierLength,
    ProofBase64,
    SignalHashHex,
    SignalHashLength,
}

/// The message of the error for a fault.
pub open spec fn fault_text(fault: ProofFault) -> Seq<char> {
    match fault {
        ProofFault::NullifierHex => "Invalid nullifier hex"@,
        ProofFault::NullifierLength => "Invalid nullifier length"@,
        ProofFault::ProofBase64 => "Invalid proof base64"@,
        ProofFault::SignalHashHex => "Invalid signal hash hex"@,
        ProofFault::SignalHashLength => "Invalid signal hash length"@,
    }
}

/// The first fault of the decoded parts of an answer, if there is one: the nullifier is
/// looked at first, then the proof, then the signal hash.
pub open spec fn first_fault(
    nullifier: Option<Seq<u8>>,
    proof: Option<Seq<u8>>,
    signal_hash: Option<Seq<u8>>,
) -> Option<ProofFault> {
    if nullifier is None {
        Some(ProofFault::NullifierHex)
    } else if nullifier->0.len() != 32 {
        Some(ProofFault::NullifierLength)
    } else if proof is None {
        Some(ProofFault::ProofBase64)
    } else if signal_hash is None {
        Some(ProofFault::SignalHashHex)
    } else if signal_hash->0.len() != 32 {
        Some(ProofFault::SignalHashLength)
    } else {
        None
    }
}

/// The views of decoded bytes.
pub open spec fn bytes_view(data: Option<Vec<u8>>) -> Option<Seq<u8>> {
    match data {
        Some(bytes) => Some(bytes@),
        None => None,
    }
}

/// The error for a fault.
fn fault_error(fault: ProofFault) -> (error: StealthError)
    ensures
        error matches StealthError::ProviderApi(m) && m@ == fault_text(fault),
{
    let text = match fault {
        ProofFault::NullifierHex => "Invalid nullifier hex",
        ProofFault::NullifierLength => "Invalid nullifier length",
        ProofFault::ProofBase64 => "Invalid proof base64",
        ProofFault::SignalHashHex => "Invalid signal hash hex",
        ProofFault::SignalHashLength => "Invalid signal hash length",
    };
    StealthError::ProviderApi(String::from_str(text))
}

/// Puts a proof together from the decoded parts of an answer. A part that could not be
/// decoded, or a nullifier or signal hash that is not 32 bytes long, is an error of the
/// provider.
pub fn assemble_proof(
    nullifier: Option<Vec<u8>>,
    proof_data: Option<Vec<u8>>,
    signal_hash: Option<Vec<u8>>,
    epoch: u64,
) -> (result: Result<RlnProof, StealthError>)
    ensures
        first_fault(bytes_view(nullifier), bytes_view(proof_data), bytes_view(signal_hash))
            matches Some(fault) ==> (result matches Err(StealthError::ProviderApi(m)) && m@
            == fault_text(fault)),
        first_fault(bytes_view(nullifier), bytes_view(proof_data), bytes_view(signal_hash)) is None
            ==> (result matches Ok(p) && p.nullifier@ == nullifier->0@ && p.proof@ == proof_data->0@
            && p.epoch == epoch && p.signal_hash@ == signal_hash->0@),
{
    let nullifier = match nullifier {
        Some(bytes) => match Bytes32::from_slice(&bytes) {
            Some(value) => value,
            None => {
                return Err(fault_error(ProofFault::NullifierLength));
            },
        },
        None => {
            return Err(fault_error(ProofFault::NullifierHex));
        },
    };
    let proof_bytes = match proof_data {
        Some(bytes) => bytes,
        None => {
            return Err(fault_error(ProofFault::ProofBase64));
        },
    };
    let signal_hash = match signal_hash {
        Some(bytes) => match Bytes32::from_slice(&bytes) {
            Some(value) => value,
            None => {
                return Err(fault_error(ProofFault::SignalHashLength));
            },
        },
        None => {
            return Err(fault_error(ProofFault::SignalHashHex));
        },
    };
    Ok(RlnProof { nullifier, proof: proof_bytes, epoch, signal_hash })
}

/// The proof that the answer to a request for one holds: the nullifier and the signal hash in
/// hexadecimal, with or without `0x` in front, and the proof in base64. The proof is bound
/// to `epoch`.
pub fn proof_from_response(nullifier: &str, proof: &str, signal_hash: &str, epoch: u64) -> (result:
    Result<RlnProof, StealthError>)
    ensures
        first_fault(
            hex_bytes(without_hex_prefix(nullifier@)),
            base64_bytes(proof@),
            hex_bytes(without_hex_prefix(signal_hash@)),
        ) matches Some(fault) ==> (result matches Err(StealthError::ProviderApi(m)) && m@
            == fault_text(fault)),
        first_fault(
            hex_bytes(without_hex_prefix(nullifier@)),
            base64_bytes(proof@),
            hex_bytes(without_hex_prefix(signal_hash@)),
        ) is None ==> (result matches Ok(p) && Some(p.nullifier@) == hex_bytes(
            without_hex_prefix(nullifier@),
        ) && Some(p.proof@) == base64_bytes(proof@) && p.epoch == epoch && Some(p.signal_hash@)
            == hex_bytes(without_hex_prefix(signal_hash@))),
{
    let nullifier_bytes = hex_decode(strip_hex_prefix(nullifier));
    let proof_bytes = base64_decode(proof);
    let signal_bytes = hex_decode(strip_hex_prefix(signal_hash));
    assemble_proof(nullifier_bytes, proof_bytes, signal_bytes, epoch)
}

/// The parameters of a request for a proof.
#[derive(Debug)]
pub struct ProofRequest {
    /// The message in base64.
    pub message: String,
    pub epoch: u64,
}

/// The parameters of a request to verify a proof.
#[derive(Debug)]
pub struct VerifyRequest {
    /// The proof in base64.
    pub proof: String,
    /// The message in base64.
    pub message: String,
    /// The nullifier: `0x` and its hexadecimal text.
    pub nullifier: String,
    pub epoch: u64,
    /// The signal hash: `0x` and its hexadecimal text.
    pub signal_hash: String,
}

/// The parameters of a push.
#[derive(Debug)]
pub struct PushRequest {
    pub pubsub_topic: String,
    /// The message in base64.
    pub payload: String,
    /// The time of the message in nanoseconds since the start of 1970.
    pub timestamp: u64,
}

/// The parameters of the request for a proof of `message` bound to `epoch`. There are none
/// where the message is too long for the encoder.
pub fn proof_request(message: &Vec<u8>, epoch: u64) -> (request: Option<ProofRequest>)
    ensures
        message@.len() <= usize::MAX / 2 ==> (request matches Some(r) && r.message@
            == base64_text(message@) && r.epoch == epoch),
        message@.len() > usize::MAX / 2 ==> request is None,
{
    match encode_base64(message) {
        Some(text) => Some(ProofRequest { message: text, epoch }),
        None => None,
    }
}

/// The parameters of the request to verify `proof` for `message`. There are none where the
/// proof or the message is too long for the encoder.
pub fn verify_request(proof: &RlnProof, message: &Vec<u8>) -> (request: Option<VerifyRequest>)
    ensures
        proof.proof@.len() <= usize::MAX / 2 && message@.len() <= usize::MAX / 2 ==> (
        request matches Some(r) && r.proof@ == base64_text(proof.proof@) && r.message@
            == base64_text(message@) && r.nullifier@ == "0x"@ + hex_text(proof.nullifier@)
            && r.epoch == proof.epoch && r.signal_hash@ == "0x"@ + hex_text(proof.signal_hash@)),
        proof.proof@.len() > usize::MAX / 2 || message@.len() > usize::MAX / 2
            ==> request is None,
{
    let proof_text = match encode_base64(&proof.proof) {
        Some(text) => text,
        None => {
            return None;
        },
    };
    let message_text = match encode_base64(message) {
        Some(text) => text,
        None => {
            return None;
        },
    };
    Some(
        VerifyRequest {
            proof: proof_text,
            message: message_text,
            nullifier: digest_text(&proof.nullifier),
            epoch: proof.epoch,
            signal_hash: digest_text(&proof.signal_hash),
        },
    )
}

/// The parameters of a push of `message` on `topic`: the time is the one given, or `now`
/// where none is given. There are none where the message is too long for the encoder.
pub fn push_request(topic: &str, message: &Vec<u8>, timestamp: Option<u64>, now: u64) -> (request:
    Option<PushRequest>)
    ensures
        message@.len() <= usize::MAX / 2 ==> (request matches Some(r) && r.pubsub_topic@ == topic@
            && r.payload@ == base64_text(message@) && r.timestamp == match timestamp {
            Some(t) => t,
            None => now,
        }),
        message@.len() > usize::MAX / 2 ==> request is None,
{
    let payload = match encode_base64(message) {
        Some(text) => text,
        None => {
            return None;
        },
    };
    let stamp = match timestamp {
        Some(t) => t,
        None => now,
    };
    Some(PushRequest { pubsub_topic: String::from_str(topic), payload, timestamp: stamp })
}

/// The message of the error for an answer that reports the error `detail`.
pub open spec fn rpc_error_text(detail: Seq<char>) -> Seq<char> {
    "RPC error: "@ + detail
}

/// Reads the answer to a remote call: an answer that reports an error is an error of the
/// provider, and so is one that holds no result.
pub fn interpret_rpc_response<T>(result: Option<T>, error: Option<String>) -> (outcome: Result<
    T,
    StealthError,
>)
    ensures
        error matches Some(detail) ==> (outcome matches Err(StealthError::ProviderApi(m)) && m@
            == rpc_error_text(detail@)),
        error is None && result is None ==> (outcome matches Err(StealthError::ProviderApi(m))
            && m@ == "No result in RPC response"@),
        error is None && result is Some ==> (outcome matches Ok(value) && value == result->0),
{
    match error {
        Some(detail) => {
            let mut text = String::from_str("RPC error: ");
            text.append(detail.as_str());
            Err(StealthError::ProviderApi(text))
        },
        None => match result {
            Some(value) => Ok(value),
            None => Err(StealthError::ProviderApi(String::from_str("No result in RPC response"))),
        },
    }
}

} // verus!
