//! Network message envelope.
use vstd::prelude::*;
use vstd::string::*;

verus! {

/// What a network message carries.
#[derive(Debug, Clone, PartialEq, Eq, Structural)]
pub enum MessageType {
    Chat,
    Ack,
    KeyExchange,
    Presence,
    PanicSignal,
}

/// A message between peers.
#[derive(Debug, Clone)]
pub struct NetworkMessage {
    pub from: String,
    pub to: String,
    pub msg_type: MessageType,
    pub payload: Vec<u8>,
    pub timestamp: i64,
}

/// A message as values: (from, to, type, payload, timestamp).
pub open spec fn message_view(m: NetworkMessage) -> (Seq<char>, Seq<char>, MessageType, Seq<u8>, i64) {
    (m.from@, m.to@, m.msg_type, m.payload@, m.timestamp)
}

impl MessageType {
    /// A copy of this type tag.
    pub fn copy(&self) -> (r: MessageType)
        ensures
            r == *self,
    {
        match self {
            MessageType::Chat => MessageType::Chat,
            MessageType::Ack => MessageType::Ack,
            MessageType::KeyExchange => MessageType::KeyExchange,
            MessageType::Presence => MessageType::Presence,
            MessageType::PanicSignal => MessageType::PanicSignal,
        }
    }
}

impl NetworkMessage {
    /// A chat message from `from` to `to` carrying `payload`, stamped `timestamp`.
    pub fn chat(from: &str, to: &str, payload: Vec<u8>, timestamp: i64) -> (r: NetworkMessage)
        ensures
            r.from@ == from@,
            r.to@ == to@,
            r.msg_type == MessageType::Chat,
            r.payload@ == payload@,
            r.timestamp == timestamp,
    {
        NetworkMessage {
            from: String::from_str(from),
            to: String::from_str(to),
            msg_type: MessageType::Chat,
            payload,
            timestamp,
        }
    }

    /// A copy of this message.
    pub fn copy(&self) -> (r: NetworkMessage)
        ensures
            message_view(r) == message_view(*self),
    {
        NetworkMessage {
            from: self.from.clone(),
            to: self.to.clone(),
            msg_type: self.msg_type.copy(),
            payload: crate::bytes::bytes_to_vec(self.payload.as_slice()),
            timestamp: self.timestamp,
        }
    }
}

} // verus!
