//! Wire protocol of the Gossipsub topics.
use vstd::prelude::*;
use crate::crypto::ratchet::MessageHeader;
use crate::crypto::sealed_sender::SealedEnvelope;
use crate::crypto::x3dh::PreKeyBundle;

verus! {

/// A message on the wire.
#[derive(Debug, Clone)]
pub enum WireMessage {
    SessionInit {
        from_peer: String,
        to_peer: String,
        initiator_ephemeral: [u8; 32],
        initiator_identity_x25519: [u8; 32],
        encrypted_payload: Vec<u8>,
        header: MessageHeader,
        timestamp: i64,
    },
    Chat { from_peer: String, to_peer: String, encrypted_payload: Vec<u8>, header: MessageHeader, timestamp: i64 },
    PreKeyAnnounce { peer_id: String, bundle: PreKeyBundle },
    Presence { peer_id: String, status: PresenceStatus, timestamp: i64 },
    GroupChat { group_id: String, from_peer: String, n: u32, ciphertext: Vec<u8>, timestamp: i64 },
    SealedChat { sealed_envelope: SealedEnvelope, timestamp: i64 },
    Typing { from_peer: String, to_peer: String, is_typing: bool },
}

/// A peer's presence.
#[derive(Debug, Clone, Copy, PartialEq, Eq, Structural)]
pub enum PresenceStatus {
    Online,
    Away,
    Offline,
}

} // verus!
