//! Network layer: messages, wire protocol, swarm handle and federation settings.
use vstd::prelude::*;
use vstd::string::*;

pub mod federation;
pub mod libp2p_transport;
pub mod messages;
pub mod protocol;
pub mod swarm;
pub mod topics;
pub mod transport;

pub use federation::{FederationConfig, FederationMode, FederationPeer};
pub use libp2p_transport::Libp2pTransport;
pub use messages::{MessageType, NetworkMessage};
pub use protocol::{PresenceStatus, WireMessage};
pub use swarm::SwarmHandle;
pub use transport::{LocalTransport, PeerInfo};

verus! {

/// Why a network operation failed.
#[derive(Debug, Clone, PartialEq, Eq)]
pub enum NetworkError {
    Connection(String),
    Send(String),
    NotConnected,
    Serialize,
    NotImplemented,
}

impl NetworkError {
    /// The human-readable message of this error.
    pub fn to_string(&self) -> (r: String)
        ensures
            r@ == network_error_message(*self),
    {
        match self {
            NetworkError::Connection(s) => {
                let mut m = String::from_str("connection failed: ");
                m.append(s.as_str());
                m
            },
            NetworkError::Send(s) => {
                let mut m = String::from_str("send failed: ");
                m.append(s.as_str());
                m
            },
            NetworkError::NotConnected => String::from_str("not connected to peer"),
            NetworkError::Serialize => String::from_str("serialization error"),
            NetworkError::NotImplemented => String::from_str("not implemented yet"),
        }
    }
}

/// The message text of each error.
pub open spec fn network_error_message(e: NetworkError) -> Seq<char> {
    match e {
        NetworkError::Connection(s) => "connection failed: "@ + s@,
        NetworkError::Send(s) => "send failed: "@ + s@,
        NetworkError::NotConnected => "not connected to peer"@,
        NetworkError::Serialize => "serialization error"@,
        NetworkError::NotImplemented => "not implemented yet"@,
    }
}

} // verus!
