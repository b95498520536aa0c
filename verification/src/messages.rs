//! The messages of the friend relay.

use crate::rate_limiter::Bytes32;
use vstd::prelude::*;

verus! {

/// The tag that every relayed message carries in place of a sender: it names no one.
pub open spec fn anonymous_sender() -> Seq<char> {
    "stealth_sidecar"@
}

/// A message to be relayed through the friend mesh.
#[derive(Debug)]
pub struct RelayMessage {
    /// Unique identifier of the message.
    pub message_id: String,
    /// The attestation.
    pub attestation_data: Vec<u8>,
    /// Subnet that the attestation belongs to.
    pub subnet_id: u8,
    /// Time at which the message was made, in nanoseconds since the start of 1970.
    pub timestamp: u64,
    /// Hint at the origin of the message. Never set on a message that leaves this node.
    pub origin_hint: Option<String>,
}

/// What a relay message says.
pub struct RelayMessageView {
    pub message_id: Seq<char>,
    pub attestation_data: Seq<u8>,
    pub subnet_id: u8,
    pub timestamp: u64,
    pub origin_hint: Option<Seq<char>>,
}

impl View for RelayMessage {
    type V = RelayMessageView;

    open spec fn view(&self) -> RelayMessageView {
        RelayMessageView {
            message_id: self.message_id@,
            attestation_data: self.attestation_data@,
            subnet_id: self.subnet_id,
            timestamp: self.timestamp,
            origin_hint: match self.origin_hint {
                Some(hint) => Some(hint@),
                None => None,
            },
        }
    }
}

/// A rate-limiting-nullifier proof.
#[derive(Debug)]
pub struct RlnProof {
    /// The nullifier of the message in its epoch.
    pub nullifier: Bytes32,
    /// The proof itself.
    pub proof: Vec<u8>,
    /// The epoch that the proof is bound to.
    pub epoch: u64,
    /// Hash of the signal.
    pub signal_hash: Bytes32,
}

/// What a proof says.
pub struct RlnProofView {
    pub nullifier: Seq<u8>,
    pub proof: Seq<u8>,
    pub epoch: u64,
    pub signal_hash: Seq<u8>,
}

impl View for RlnProof {
    type V = RlnProofView;

    open spec fn view(&self) -> RlnProofView {
        RlnProofView {
            nullifier: self.nullifier@,
            proof: self.proof@,
            epoch: self.epoch,
            signal_hash: self.signal_hash@,
        }
    }
}

/// A message with its proof, as it travels between friends.
#[derive(Debug)]
pub struct ProvenMessage {
    pub message: RelayMessage,
    pub rln_proof: RlnProof,
    /// A fixed tag, never derived from an identity.
    pub sender_id: String,
}

/// What a proven message says.
pub struct ProvenMessageView {
    pub message: RelayMessageView,
    pub rln_proof: RlnProofView,
    pub sender_id: Seq<char>,
}

impl View for ProvenMessage {
    type V = ProvenMessageView;

    open spec fn view(&self) -> ProvenMessageView {
        ProvenMessageView {
            message: self.message@,
            rln_proof: self.rln_proof@,
            sender_id: self.sender_id@,
        }
    }
}

} // verus!
