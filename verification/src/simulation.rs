//! A stand-in for the gossip engine: made-up attestations, blocks and other messages in the
//! proportions of a quiet network.

use crate::prng::Prng;
use crate::sidecar::GossipMessage;
use vstd::prelude::*;
use vstd::string::*;

verus! {

/// Length of a made-up attestation.
pub const MOCK_ATTESTATION_LEN: usize = 96;

/// Smallest length of a made-up block.
pub const MOCK_BLOCK_MIN_LEN: usize = 1024;

/// Bound above the lengths of made-up blocks.
pub const MOCK_BLOCK_MAX_LEN: usize = 10240;

/// The first bytes of a made-up block: the letters `BEAC`.
pub open spec fn block_magic() -> Seq<u8> {
    seq![0x42u8, 0x45u8, 0x41u8, 0x43u8]
}

/// Whether `data` has the shape of a made-up attestation: 96 bytes, the first the version 1,
/// the second a committee index below 64.
pub open spec fn is_mock_attestation(data: Seq<u8>) -> bool {
    &&& data.len() == 96
    &&& data[0] == 1
    &&& data[1] < 64
}

/// Whether `data` has the shape of a made-up block: between 1024 and 10239 bytes, the first
/// four the letters `BEAC`.
pub open spec fn is_mock_block(data: Seq<u8>) -> bool {
    &&& 1024 <= data.len() < 10240
    &&& data.subrange(0, 4) == block_magic()
}

/// A made-up attestation from the generator `rng`.
pub fn generate_mock_attestation_with(rng: &mut Prng) -> (data: Vec<u8>)
    ensures
        is_mock_attestation(data@),
{
    let mut data = rng.random_bytes(MOCK_ATTESTATION_LEN);
    data.set(0, 1u8);
    let committee = rng.below(64);
    data.set(1, committee as u8);
    data
}

/// A made-up block from the generator `rng`.
pub fn generate_mock_block_with(rng: &mut Prng) -> (data: Vec<u8>)
    ensures
        is_mock_block(data@),
{
    let extra = rng.below((MOCK_BLOCK_MAX_LEN - MOCK_BLOCK_MIN_LEN) as u32);
    let size = MOCK_BLOCK_MIN_LEN + extra as usize;
    let mut data = rng.random_bytes(size);
    data.set(0, 0x42u8);
    data.set(1, 0x45u8);
    data.set(2, 0x41u8);
    data.set(3, 0x43u8);
    assert(data@.subrange(0, 4) =~= block_magic());
    data
}

/// A generator seeded by the operating system, or one with a fixed seed where the system
/// has no entropy to give.
fn any_rng() -> Prng {
    match Prng::from_os() {
        Some(rng) => rng,
        None => Prng::from_seed(0),
    }
}

/// A made-up attestation.
pub fn generate_mock_attestation() -> (data: Vec<u8>)
    ensures
        is_mock_attestation(data@),
{
    let mut rng = any_rng();
    generate_mock_attestation_with(&mut rng)
}

/// A made-up block.
pub fn generate_mock_block() -> (data: Vec<u8>)
    ensures
        is_mock_block(data@),
{
    let mut rng = any_rng();
    generate_mock_block_with(&mut rng)
}

/// The topic of the made-up messages that are neither attestations nor blocks.
pub open spec fn other_topic() -> Seq<char> {
    "/eth2/mainnet/voluntary_exit/ssz_snappy"@
}

/// The message that is made for the draw `roll` out of ten: an attestation for a draw up to 6,
/// a block for 7 and 8, and another message else.
pub fn simulated_message(
    roll: u32,
    subnet_id: u8,
    attestation: Vec<u8>,
    block: Vec<u8>,
    source_peer: String,
    message_id: Vec<u8>,
) -> (message: GossipMessage)
    ensures
        roll <= 6 ==> message == (GossipMessage::Attestation {
            data: attestation,
            subnet_id,
            source_peer,
            message_id,
        }),
        7 <= roll <= 8 ==> message == (GossipMessage::Block { data: block, source_peer, message_id }),
        roll > 8 ==> (message matches GossipMessage::Other { topic, data, source_peer: peer, message_id: id }
            && topic@ == other_topic() && data@ == seq![1u8, 2u8, 3u8, 4u8, 5u8] && peer
            == source_peer && id == message_id),
{
    if roll <= 6 {
        GossipMessage::Attestation { data: attestation, subnet_id, source_peer, message_id }
    } else if roll <= 8 {
        GossipMessage::Block { data: block, source_peer, message_id }
    } else {
        let mut data: Vec<u8> = Vec::new();
        data.push(1u8);
        data.push(2u8);
        data.push(3u8);
        data.push(4u8);
        data.push(5u8);
        assert(data@ =~= seq![1u8, 2u8, 3u8, 4u8, 5u8]);
        GossipMessage::Other {
            topic: String::from_str("/eth2/mainnet/voluntary_exit/ssz_snappy"),
            data,
            source_peer,
            message_id,
        }
    }
}

/// A made-up gossip message that is said to come from `source_peer`: in seven cases out of
/// ten an attestation of a random subnet, in two a block, in one another message.
pub fn simulate_gossip_message(rng: &mut Prng, source_peer: String) -> (message: GossipMessage)
    ensures
        message matches GossipMessage::Attestation { data, subnet_id, .. } ==> is_mock_attestation(
            data@,
        ) && subnet_id < 64,
        message matches GossipMessage::Block { data, .. } ==> is_mock_block(data@),
        message matches GossipMessage::Other { topic, .. } ==> topic@ == other_topic(),
{
    let roll = rng.below(10);
    let subnet_id = rng.below(64) as u8;
    let attestation = generate_mock_attestation_with(rng);
    let block = generate_mock_block_with(rng);
    let message_id = rng.random_bytes(32);
    simulated_message(roll, subnet_id, attestation, block, source_peer, message_id)
}

} // verus!
