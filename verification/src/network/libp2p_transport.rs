//! Libp2p transport (its sending and receiving live with the transport trait).
use vstd::prelude::*;
use vstd::string::*;

verus! {

/// The libp2p transport of a peer.
pub struct Libp2pTransport {
    peer_id: String,
}

impl Libp2pTransport {
    /// The transport of `peer_id`.
    pub fn new(peer_id: &str) -> (r: Self)
        ensures
            r.local_peer_id_spec() == peer_id@,
    {
        Libp2pTransport { peer_id: String::from_str(peer_id) }
    }

    /// The local peer id.
    pub closed spec fn local_peer_id_spec(&self) -> Seq<char> {
        self.peer_id@
    }

    /// Connecting always succeeds: peers are found by the swarm.
    pub fn connect(&self, peer: &crate::network::transport::PeerInfo) -> (r: Result<(), crate::network::NetworkError>)
        ensures
            r is Ok,
    {
        Ok(())
    }

    /// Sending directly is not implemented: messages go through the swarm's topics.
    pub fn send(&self, to: &str, msg: &crate::network::messages::NetworkMessage) -> (r: Result<
        (),
        crate::network::NetworkError,
    >)
        ensures
            r == Err::<(), crate::network::NetworkError>(crate::network::NetworkError::NotImplemented),
    {
        Err(crate::network::NetworkError::NotImplemented)
    }

    /// Nothing arrives directly.
    pub fn receive(&self) -> (r: Result<Option<crate::network::messages::NetworkMessage>, crate::network::NetworkError>)
        ensures
            r matches Ok(m) && m is None,
    {
        Ok(None)
    }

    /// The local peer id.
    pub fn local_peer_id(&self) -> (r: &str)
        ensures
            r@ == self.local_peer_id_spec(),
    {
        self.peer_id.as_str()
    }
}

} // verus!
