//! The wire format of the friend relay: length-prefixed records, little-endian.
//!
//! A field is a 32-bit length followed by that many bytes. A text is the field of its UTF-8
//! encoding. A relay message is its identifier (text), its attestation (field), its subnet
//! (one byte), its time (64 bits) and its origin hint (one byte, 0 or 1, and then the hint as
//! text if the byte is 1). A proof is its nullifier (32 bytes), the proof (field), its epoch (64
//! bits) and the signal hash (32 bytes). An envelope is the field of a relay message, a proof
//! and the sender tag (text).

use crate::messages::{
    ProvenMessage, ProvenMessageView, RelayMessage, RelayMessageView, RlnProof, RlnProofView,
};
use crate::rate_limiter::Bytes32;
use vstd::bytes::*;
use vstd::prelude::*;
use vstd::string::*;
use vstd::utf8::*;

verus! {

/// `String::from_utf8` of std: the text that `bytes` encode if they are valid UTF-8, and
/// nothing if they are not.
#[verifier::external_body]
fn text_from_utf8(bytes: Vec<u8>) -> (text: Option<String>)
    ensures
        text is Some == valid_utf8(bytes@),
        text matches Some(t) ==> t@ == decode_utf8(bytes@),
{
    String::from_utf8(bytes).ok()
}

/// Largest length of a field.
pub open spec fn max_field() -> int {
    u32::MAX as int
}

/// A field: the length of `b`, then `b`.
pub open spec fn enc_field(b: Seq<u8>) -> Seq<u8> {
    spec_u32_to_le_bytes(b.len() as u32) + b
}

/// Reads a field from the front of `b`: the content and what follows it.
pub open spec fn dec_field(b: Seq<u8>) -> Option<(Seq<u8>, Seq<u8>)> {
    if b.len() < 4 {
        None
    } else {
        let n = spec_u32_from_le_bytes(b.subrange(0, 4)) as int;
        if b.len() - 4 < n {
            None
        } else {
            Some((b.subrange(4, 4 + n), b.skip(4 + n)))
        }
    }
}

/// A text as a field.
pub open spec fn enc_text(t: Seq<char>) -> Seq<u8> {
    enc_field(encode_utf8(t))
}

/// Reads a text from the front of `b`.
pub open spec fn dec_text(b: Seq<u8>) -> Option<(Seq<char>, Seq<u8>)> {
    match dec_field(b) {
        Some((raw, rest)) => if valid_utf8(raw) {
            Some((decode_utf8(raw), rest))
        } else {
            None
        },
        None => None,
    }
}

/// Reads one byte from the front of `b`.
pub open spec fn dec_byte(b: Seq<u8>) -> Option<(u8, Seq<u8>)> {
    if b.len() < 1 {
        None
    } else {
        Some((b[0], b.skip(1)))
    }
}

/// Reads a 64-bit number from the front of `b`.
pub open spec fn dec_u64(b: Seq<u8>) -> Option<(u64, Seq<u8>)> {
    if b.len() < 8 {
        None
    } else {
        Some((spec_u64_from_le_bytes(b.subrange(0, 8)), b.skip(8)))
    }
}

/// Reads 32 bytes from the front of `b`.
pub open spec fn dec_fixed(b: Seq<u8>) -> Option<(Seq<u8>, Seq<u8>)> {
    if b.len() < 32 {
        None
    } else {
        Some((b.subrange(0, 32), b.skip(32)))
    }
}

/// An origin hint: absent as the byte 0, present as the byte 1 and the text.
pub open spec fn enc_hint(hint: Option<Seq<char>>) -> Seq<u8> {
    match hint {
        None => seq![0u8],
        Some(t) => seq![1u8] + enc_text(t),
    }
}

/// Reads an origin hint from the front of `b`.
pub open spec fn dec_hint(b: Seq<u8>) -> Option<(Option<Seq<char>>, Seq<u8>)> {
    match dec_byte(b) {
        Some((flag, rest)) => if flag == 0 {
            Some((None, rest))
        } else if flag == 1 {
            match dec_text(rest) {
                Some((t, after)) => Some((Some(t), after)),
                None => None,
            }
        } else {
            None
        },
        None => None,
    }
}

/// A relay message on the wire.
pub open spec fn enc_message(m: RelayMessageView) -> Seq<u8> {
    enc_text(m.message_id) + enc_field(m.attestation_data) + seq![m.subnet_id]
        + spec_u64_to_le_bytes(m.timestamp) + enc_hint(m.origin_hint)
}

/// Reads a relay message from the front of `b`.
pub open spec fn dec_message(b: Seq<u8>) -> Option<(RelayMessageView, Seq<u8>)> {
    match dec_text(b) {
        Some((message_id, b1)) => match dec_field(b1) {
            Some((attestation_data, b2)) => match dec_byte(b2) {
                Some((subnet_id, b3)) => match dec_u64(b3) {
                    Some((timestamp, b4)) => match dec_hint(b4) {
                        Some((origin_hint, b5)) => Some(
                            (
                                RelayMessageView {
                                    message_id,
                                    attestation_data,
                                    subnet_id,
                                    timestamp,
                                    origin_hint,
                                },
                                b5,
                            ),
                        ),
                        None => None,
                    },
                    None => None,
                },
                None => None,
            },
            None => None,
        },
        None => None,
    }
}

/// A proof on the wire.
pub open spec fn enc_proof(p: RlnProofView) -> Seq<u8> {
    p.nullifier + enc_field(p.proof) + spec_u64_to_le_bytes(p.epoch) + p.signal_hash
}

/// Reads a proof from the front of `b`.
pub open spec fn dec_proof(b: Seq<u8>) -> Option<(RlnProofView, Seq<u8>)> {
    match dec_fixed(b) {
        Some((nullifier, b1)) => match dec_field(b1) {
            Some((proof, b2)) => match dec_u64(b2) {
                Some((epoch, b3)) => match dec_fixed(b3) {
                    Some((signal_hash, b4)) => Some(
                        (RlnProofView { nullifier, proof, epoch, signal_hash }, b4),
                    ),
                    None => None,
                },
                None => None,
            },
            None => None,
        },
        None => None,
    }
}

/// The content of an envelope.
pub open spec fn enc_body(e: ProvenMessageView) -> Seq<u8> {
    enc_message(e.message) + enc_proof(e.rln_proof) + enc_text(e.sender_id)
}

/// Reads the content of an envelope, which must be all of `b`.
pub open spec fn dec_body(b: Seq<u8>) -> Option<ProvenMessageView> {
    match dec_message(b) {
        Some((message, b1)) => match dec_proof(b1) {
            Some((rln_proof, b2)) => match dec_text(b2) {
                Some((sender_id, b3)) => if b3.len() == 0 {
                    Some(ProvenMessageView { message, rln_proof, sender_id })
                } else {
                    None
                },
                None => None,
            },
            None => None,
        },
        None => None,
    }
}

/// An envelope on the wire.
pub open spec fn enc_envelope(e: ProvenMessageView) -> Seq<u8> {
    enc_field(enc_body(e))
}

/// Reads an envelope, which must be all of `b`.
pub open spec fn dec_envelope(b: Seq<u8>) -> Option<ProvenMessageView> {
    match dec_field(b) {
        Some((body, rest)) => if rest.len() == 0 {
            dec_body(body)
        } else {
            None
        },
        None => None,
    }
}

/// Whether a relay message fits the format: no text or field is longer than 32 bits count.
pub open spec fn message_fits(m: RelayMessageView) -> bool {
    &&& encode_utf8(m.message_id).len() <= max_field()
    &&& m.attestation_data.len() <= max_field()
    &&& m.origin_hint matches Some(t) ==> encode_utf8(t).len() <= max_field()
}

/// Whether a proof fits the format.
pub open spec fn proof_fits(p: RlnProofView) -> bool {
    &&& p.nullifier.len() == 32
    &&& p.signal_hash.len() == 32
    &&& p.proof.len() <= max_field()
}

/// Whether an envelope fits the format.
pub open spec fn envelope_fits(e: ProvenMessageView) -> bool {
    &&& message_fits(e.message)
    &&& proof_fits(e.rln_proof)
    &&& encode_utf8(e.sender_id).len() <= max_field()
    &&& enc_body(e).len() <= max_field()
}

/// A field that is written and read again is the same field, and what followed it follows.
pub proof fn lemma_field(b: Seq<u8>, rest: Seq<u8>)
    requires
        b.len() <= max_field(),
    ensures
        dec_field(enc_field(b) + rest) == Some((b, rest)),
{
    lemma_auto_spec_u32_to_from_le_bytes();
    let n = b.len() as u32;
    let all = enc_field(b) + rest;
    assert(all.subrange(0, 4) =~= spec_u32_to_le_bytes(n));
    assert(all.subrange(4, 4 + n) =~= b);
    assert(all.skip(4 + n) =~= rest);
}

/// A text that is written and read again is the same text.
pub proof fn lemma_text(t: Seq<char>, rest: Seq<u8>)
    requires
        encode_utf8(t).len() <= max_field(),
    ensures
        dec_text(enc_text(t) + rest) == Some((t, rest)),
{
    lemma_field(encode_utf8(t), rest);
    encode_utf8_valid_utf8(t);
    encode_utf8_decode_utf8(t);
}

/// A 64-bit number that is written and read again is the same number.
pub proof fn lemma_u64(x: u64, rest: Seq<u8>)
    ensures
        dec_u64(spec_u64_to_le_bytes(x) + rest) == Some((x, rest)),
{
    lemma_auto_spec_u64_to_from_le_bytes();
    let all = spec_u64_to_le_bytes(x) + rest;
    assert(all.subrange(0, 8) =~= spec_u64_to_le_bytes(x));
    assert(all.skip(8) =~= rest);
}

/// Thirty-two bytes that are written and read again are the same bytes.
pub proof fn lemma_fixed(x: Seq<u8>, rest: Seq<u8>)
    requires
        x.len() == 32,
    ensures
        dec_fixed(x + rest) == Some((x, rest)),
{
    let all = x + rest;
    assert(all.subrange(0, 32) =~= x);
    assert(all.skip(32) =~= rest);
}

/// An origin hint that is written and read again is the same hint.
pub proof fn lemma_hint(hint: Option<Seq<char>>, rest: Seq<u8>)
    requires
        hint matches Some(t) ==> encode_utf8(t).len() <= max_field(),
    ensures
        dec_hint(enc_hint(hint) + rest) == Some((hint, rest)),
{
    let all = enc_hint(hint) + rest;
    match hint {
        None => {
            assert(all.skip(1) =~= rest);
        },
        Some(t) => {
            assert(all.skip(1) =~= enc_text(t) + rest);
            lemma_text(t, rest);
        },
    }
}

/// A relay message that is written and read again is the same message.
pub proof fn lemma_message(m: RelayMessageView, rest: Seq<u8>)
    requires
        message_fits(m),
    ensures
        dec_message(enc_message(m) + rest) == Some((m, rest)),
{
    let part5 = enc_hint(m.origin_hint);
    let part4 = spec_u64_to_le_bytes(m.timestamp);
    let part3 = seq![m.subnet_id];
    let part2 = enc_field(m.attestation_data);
    let part1 = enc_text(m.message_id);
    let b4 = part5 + rest;
    let b3 = part4 + b4;
    let b2 = part3 + b3;
    let b1 = part2 + b2;
    let b0 = part1 + b1;
    assert(enc_message(m) + rest =~= b0);
    lemma_text(m.message_id, b1);
    lemma_field(m.attestation_data, b2);
    assert(b2.skip(1) =~= b3);
    assert(b2[0] == m.subnet_id);
    lemma_u64(m.timestamp, b4);
    lemma_hint(m.origin_hint, rest);
}

/// A proof that is written and read again is the same proof.
pub proof fn lemma_proof(p: RlnProofView, rest: Seq<u8>)
    requires
        proof_fits(p),
    ensures
        dec_proof(enc_proof(p) + rest) == Some((p, rest)),
{
    let b3 = p.signal_hash + rest;
    let b2 = spec_u64_to_le_bytes(p.epoch) + b3;
    let b1 = enc_field(p.proof) + b2;
    let b0 = p.nullifier + b1;
    assert(enc_proof(p) + rest =~= b0);
    lemma_fixed(p.nullifier, b1);
    lemma_field(p.proof, b2);
    lemma_u64(p.epoch, b3);
    lemma_fixed(p.signal_hash, rest);
}

/// An envelope that is written and read again is the same envelope: sender and receiver agree
/// on every message that fits the format.
pub proof fn lemma_envelope_round_trip(e: ProvenMessageView)
    requires
        envelope_fits(e),
    ensures
        dec_envelope(enc_envelope(e)) == Some(e),
{
    let body = enc_body(e);
    let none = Seq::<u8>::empty();
    lemma_field(body, none);
    assert(enc_field(body) + none =~= enc_field(body));
    let b2 = enc_text(e.sender_id);
    let b1 = enc_proof(e.rln_proof) + b2;
    assert(body =~= enc_message(e.message) + b1);
    lemma_message(e.message, b1);
    lemma_proof(e.rln_proof, b2);
    lemma_text(e.sender_id, none);
    assert(b2 + none =~= b2);
}

/// Appends `src` to `out`.
pub fn append_bytes(out: &mut Vec<u8>, src: &Vec<u8>)
    ensures
        final(out)@ == old(out)@ + src@,
{
    let mut i: usize = 0;
    while i < src.len()
        invariant
            i <= src.len(),
            out@ == old(out)@ + src@.take(i as int),
        decreases src.len() - i,
    {
        out.push(src[i]);
        proof {
            assert(src@.take(i as int + 1) =~= src@.take(i as int).push(src@[i as int]));
            assert(out@ =~= old(out)@ + src@.take(i as int + 1));
        }
        i = i + 1;
    }
    assert(src@.take(i as int) =~= src@);
}

/// The bytes of `bytes` from `from` up to `to`.
pub fn copy_range(bytes: &Vec<u8>, from: usize, to: usize) -> (part: Vec<u8>)
    requires
        from <= to <= bytes.len(),
    ensures
        part@ == bytes@.subrange(from as int, to as int),
{
    let mut part: Vec<u8> = Vec::new();
    let mut i: usize = from;
    while i < to
        invariant
            from <= i <= to <= bytes.len(),
            part@ == bytes@.subrange(from as int, i as int),
        decreases to - i,
    {
        part.push(bytes[i]);
        proof {
            assert(bytes@.subrange(from as int, i as int + 1) =~= bytes@.subrange(
                from as int,
                i as int,
            ).push(bytes@[i as int]));
        }
        i = i + 1;
    }
    part
}

/// Appends `b` as a field to `out`, unless it is too long for one.
pub fn write_field(out: &mut Vec<u8>, b: &Vec<u8>) -> (written: bool)
    ensures
        written == (b@.len() <= max_field()),
        written ==> final(out)@ == old(out)@ + enc_field(b@),
        !written ==> final(out)@ == old(out)@,
{
    if b.len() > u32::MAX as usize {
        return false;
    }
    let prefix = u32_to_le_bytes(b.len() as u32);
    append_bytes(out, &prefix);
    append_bytes(out, b);
    assert(out@ =~= old(out)@ + enc_field(b@));
    true
}

/// Appends `text` as a field to `out`, unless it is too long for one.
pub fn write_text(out: &mut Vec<u8>, text: &str) -> (written: bool)
    ensures
        written == (encode_utf8(text@).len() <= max_field()),
        written ==> final(out)@ == old(out)@ + enc_text(text@),
        !written ==> final(out)@ == old(out)@,
{
    let raw = text.as_bytes_vec();
    write_field(out, &raw)
}

/// Appends a relay message to `out`, unless it does not fit the format.
pub fn write_message(out: &mut Vec<u8>, m: &RelayMessage) -> (written: bool)
    ensures
        written == message_fits(m@),
        written ==> final(out)@ == old(out)@ + enc_message(m@),
{
    if !write_text(out, m.message_id.as_str()) {
        return false;
    }
    if !write_field(out, &m.attestation_data) {
        return false;
    }
    out.push(m.subnet_id);
    let stamp = u64_to_le_bytes(m.timestamp);
    append_bytes(out, &stamp);
    match &m.origin_hint {
        None => {
            out.push(0u8);
        },
        Some(hint) => {
            out.push(1u8);
            if !write_text(out, hint.as_str()) {
                return false;
            }
        },
    }
    assert(out@ =~= old(out)@ + enc_message(m@));
    true
}

/// Appends a proof to `out`, unless it does not fit the format.
pub fn write_proof(out: &mut Vec<u8>, p: &RlnProof) -> (written: bool)
    ensures
        written == proof_fits(p@),
        written ==> final(out)@ == old(out)@ + enc_proof(p@),
{
    let nullifier = p.nullifier.to_vec();
    append_bytes(out, &nullifier);
    if !write_field(out, &p.proof) {
        return false;
    }
    let epoch = u64_to_le_bytes(p.epoch);
    append_bytes(out, &epoch);
    let signal = p.signal_hash.to_vec();
    append_bytes(out, &signal);
    assert(out@ =~= old(out)@ + enc_proof(p@));
    true
}

/// The bytes of a relay message, over which its proof is made. There are none where the
/// message does not fit the format.
pub fn encode_relay_message(m: &RelayMessage) -> (bytes: Option<Vec<u8>>)
    ensures
        message_fits(m@) ==> (bytes matches Some(b) && b@ == enc_message(m@)),
        !message_fits(m@) ==> bytes is None,
{
    let mut out: Vec<u8> = Vec::new();
    if write_message(&mut out, m) {
        assert(out@ =~= enc_message(m@));
        Some(out)
    } else {
        None
    }
}

/// The bytes of an envelope. There are none where the envelope does not fit the format.
pub fn encode_proven_message(e: &ProvenMessage) -> (bytes: Option<Vec<u8>>)
    ensures
        envelope_fits(e@) ==> (bytes matches Some(b) && b@ == enc_envelope(e@)),
        !envelope_fits(e@) ==> bytes is None,
{
    let mut body: Vec<u8> = Vec::new();
    if !write_message(&mut body, &e.message) {
        return None;
    }
    if !write_proof(&mut body, &e.rln_proof) {
        return None;
    }
    if !write_text(&mut body, e.sender_id.as_str()) {
        return None;
    }
    assert(body@ =~= enc_body(e@));
    let mut out: Vec<u8> = Vec::new();
    if !write_field(&mut out, &body) {
        return None;
    }
    assert(out@ =~= enc_envelope(e@));
    Some(out)
}

/// Reads a field at `pos`.
pub fn read_field(bytes: &Vec<u8>, pos: usize) -> (found: Option<(Vec<u8>, usize)>)
    requires
        pos <= bytes.len(),
    ensures
        match found {
            Some((content, next)) => pos <= next <= bytes.len() && dec_field(
                bytes@.skip(pos as int),
            ) == Some((content@, bytes@.skip(next as int))),
            None => dec_field(bytes@.skip(pos as int)) is None,
        },
{
    let ghost b = bytes@.skip(pos as int);
    if bytes.len() - pos < 4 {
        return None;
    }
    let prefix = copy_range(bytes, pos, pos + 4);
    assert(prefix@ =~= b.subrange(0, 4));
    let n = u32_from_le_bytes(prefix.as_slice()) as usize;
    if bytes.len() - pos - 4 < n {
        return None;
    }
    let content = copy_range(bytes, pos + 4, pos + 4 + n);
    proof {
        assert(content@ =~= b.subrange(4, 4 + n));
        assert(bytes@.skip(pos + 4 + n) =~= b.skip(4 + n));
    }
    Some((content, pos + 4 + n))
}

/// Reads a text at `pos`.
pub fn read_text(bytes: &Vec<u8>, pos: usize) -> (found: Option<(String, usize)>)
    requires
        pos <= bytes.len(),
    ensures
        match found {
            Some((text, next)) => pos <= next <= bytes.len() && dec_text(bytes@.skip(pos as int))
                == Some((text@, bytes@.skip(next as int))),
            None => dec_text(bytes@.skip(pos as int)) is None,
        },
{
    match read_field(bytes, pos) {
        Some((raw, next)) => match text_from_utf8(raw) {
            Some(text) => Some((text, next)),
            None => None,
        },
        None => None,
    }
}

/// Reads one byte at `pos`.
pub fn read_byte(bytes: &Vec<u8>, pos: usize) -> (found: Option<(u8, usize)>)
    requires
        pos <= bytes.len(),
    ensures
        match found {
            Some((value, next)) => pos <= next <= bytes.len() && dec_byte(bytes@.skip(pos as int))
                == Some((value, bytes@.skip(next as int))),
            None => dec_byte(bytes@.skip(pos as int)) is None,
        },
{
    if pos >= bytes.len() {
        return None;
    }
    assert(bytes@.skip(pos as int).skip(1) =~= bytes@.skip(pos + 1));
    Some((bytes[pos], pos + 1))
}

/// Reads a 64-bit number at `pos`.
pub fn read_u64(bytes: &Vec<u8>, pos: usize) -> (found: Option<(u64, usize)>)
    requires
        pos <= bytes.len(),
    ensures
        match found {
            Some((value, next)) => pos <= next <= bytes.len() && dec_u64(bytes@.skip(pos as int))
                == Some((value, bytes@.skip(next as int))),
            None => dec_u64(bytes@.skip(pos as int)) is None,
        },
{
    if bytes.len() - pos < 8 {
        return None;
    }
    let raw = copy_range(bytes, pos, pos + 8);
    proof {
        assert(raw@ =~= bytes@.skip(pos as int).subrange(0, 8));
        assert(bytes@.skip(pos as int).skip(8) =~= bytes@.skip(pos + 8));
    }
    Some((u64_from_le_bytes(raw.as_slice()), pos + 8))
}

/// Reads 32 bytes at `pos`.
pub fn read_fixed(bytes: &Vec<u8>, pos: usize) -> (found: Option<(Bytes32, usize)>)
    requires
        pos <= bytes.len(),
    ensures
        match found {
            Some((value, next)) => pos <= next <= bytes.len() && dec_fixed(
                bytes@.skip(pos as int),
            ) == Some((value@, bytes@.skip(next as int))),
            None => dec_fixed(bytes@.skip(pos as int)) is None,
        },
{
    if bytes.len() - pos < 32 {
        return None;
    }
    let raw = copy_range(bytes, pos, pos + 32);
    proof {
        assert(raw@ =~= bytes@.skip(pos as int).subrange(0, 32));
        assert(bytes@.skip(pos as int).skip(32) =~= bytes@.skip(pos + 32));
    }
    match Bytes32::from_slice(&raw) {
        Some(value) => Some((value, pos + 32)),
        None => None,
    }
}

/// Reads an origin hint at `pos`.
pub fn read_hint(bytes: &Vec<u8>, pos: usize) -> (found: Option<(Option<String>, usize)>)
    requires
        pos <= bytes.len(),
    ensures
        match found {
            Some((hint, next)) => pos <= next <= bytes.len() && dec_hint(bytes@.skip(pos as int))
                == Some(
                (
                    match hint {
                        Some(t) => Some(t@),
                        None => None,
                    },
                    bytes@.skip(next as int),
                ),
            ),
            None => dec_hint(bytes@.skip(pos as int)) is None,
        },
{
    match read_byte(bytes, pos) {
        Some((flag, next)) => {
            if flag == 0 {
                Some((None, next))
            } else if flag == 1 {
                match read_text(bytes, next) {
                    Some((text, after)) => Some((Some(text), after)),
                    None => None,
                }
            } else {
                None
            }
        },
        None => None,
    }
}

/// Reads a relay message at `pos`.
pub fn read_message(bytes: &Vec<u8>, pos: usize) -> (found: Option<(RelayMessage, usize)>)
    requires
        pos <= bytes.len(),
    ensures
        match found {
            Some((m, next)) => pos <= next <= bytes.len() && dec_message(bytes@.skip(pos as int))
                == Some((m@, bytes@.skip(next as int))),
            None => dec_message(bytes@.skip(pos as int)) is None,
        },
{
    let (message_id, pos1) = match read_text(bytes, pos) {
        Some(found) => found,
        None => {
            return None;
        },
    };
    let (attestation_data, pos2) = match read_field(bytes, pos1) {
        Some(found) => found,
        None => {
            return None;
        },
    };
    let (subnet_id, pos3) = match read_byte(bytes, pos2) {
        Some(found) => found,
        None => {
            return None;
        },
    };
    let (timestamp, pos4) = match read_u64(bytes, pos3) {
        Some(found) => found,
        None => {
            return None;
        },
    };
    let (origin_hint, pos5) = match read_hint(bytes, pos4) {
        Some(found) => found,
        None => {
            return None;
        },
    };
    Some((RelayMessage { message_id, attestation_data, subnet_id, timestamp, origin_hint }, pos5))
}

/// Reads a proof at `pos`.
pub fn read_proof(bytes: &Vec<u8>, pos: usize) -> (found: Option<(RlnProof, usize)>)
    requires
        pos <= bytes.len(),
    ensures
        match found {
            Some((p, next)) => pos <= next <= bytes.len() && dec_proof(bytes@.skip(pos as int))
                == Some((p@, bytes@.skip(next as int))),
            None => dec_proof(bytes@.skip(pos as int)) is None,
        },
{
    let (nullifier, pos1) = match read_fixed(bytes, pos) {
        Some(found) => found,
        None => {
            return None;
        },
    };
    let (proof, pos2) = match read_field(bytes, pos1) {
        Some(found) => found,
        None => {
            return None;
        },
    };
    let (epoch, pos3) = match read_u64(bytes, pos2) {
        Some(found) => found,
        None => {
            return None;
        },
    };
    let (signal_hash, pos4) = match read_fixed(bytes, pos3) {
        Some(found) => found,
        None => {
            return None;
        },
    };
    Some((RlnProof { nullifier, proof, epoch, signal_hash }, pos4))
}

/// Reads an envelope that is all of `bytes`. There is none where the bytes are no envelope.
pub fn decode_proven_message(bytes: &Vec<u8>) -> (found: Option<ProvenMessage>)
    ensures
        match found {
            Some(e) => dec_envelope(bytes@) == Some(e@),
            None => dec_envelope(bytes@) is None,
        },
{
    assert(bytes@.skip(0) =~= bytes@);
    let (body, end) = match read_field(bytes, 0) {
        Some(found) => found,
        None => {
            return None;
        },
    };
    if end != bytes.len() {
        return None;
    }
    assert(body@.skip(0) =~= body@);
    let (message, pos1) = match read_message(&body, 0) {
        Some(found) => found,
        None => {
            return None;
        },
    };
    let (rln_proof, pos2) = match read_proof(&body, pos1) {
        Some(found) => found,
        None => {
            return None;
        },
    };
    let (sender_id, pos3) = match read_text(&body, pos2) {
        Some(found) => found,
        None => {
            return None;
        },
    };
    if pos3 != body.len() {
        return None;
    }
    Some(ProvenMessage { message, rln_proof, sender_id })
}

} // verus!
