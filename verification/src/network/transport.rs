//! Peers of a transport, and the in-process transport used for tests and simulation.
use vstd::prelude::*;
use vstd::string::*;
use std::collections::VecDeque;
use crate::assoc::{assoc_view, distinct_keys, find_by_name, lemma_assoc_at, lemma_assoc_push, lemma_assoc_update};
use crate::network::messages::{message_view, NetworkMessage, MessageType};
use crate::network::NetworkError;

verus! {

/// A peer and the addresses it listens on.
#[derive(Clone, Debug)]
pub struct PeerInfo {
    pub peer_id: String,
    pub multiaddrs: Vec<String>,
}

/// The values of a queue of messages, oldest first.
pub open spec fn queue_view(q: Seq<NetworkMessage>) -> Seq<(Seq<char>, Seq<char>, MessageType, Seq<u8>, i64)> {
    q.map_values(|m: NetworkMessage| message_view(m))
}

/// The view of a peer-id key.
pub open spec fn peer_key() -> spec_fn(String) -> Seq<char> {
    |k: String| k@
}

/// The view of a peer's queue.
pub open spec fn queue_value() -> spec_fn(VecDeque<NetworkMessage>) -> Seq<
    (Seq<char>, Seq<char>, MessageType, Seq<u8>, i64),
> {
    |q: VecDeque<NetworkMessage>| queue_view(q@)
}

/// The state of a local transport as values.
pub struct LocalTransportView {
    /// Our peer id.
    pub peer_id: Seq<char>,
    /// For each registered peer, the messages sent to it that it has not yet taken, oldest
    /// first.
    pub peers: Map<Seq<char>, Seq<(Seq<char>, Seq<char>, MessageType, Seq<u8>, i64)>>,
    /// The messages delivered to us and not yet received, oldest first.
    pub inbox: Seq<(Seq<char>, Seq<char>, MessageType, Seq<u8>, i64)>,
}

/// An in-process transport: a first-in first-out queue of messages for each registered peer
/// and one for ourselves.
pub struct LocalTransport {
    peer_id: String,
    peers: Vec<(String, VecDeque<NetworkMessage>)>,
    inbox: VecDeque<NetworkMessage>,
}

impl View for LocalTransport {
    type V = LocalTransportView;

    closed spec fn view(&self) -> LocalTransportView {
        LocalTransportView {
            peer_id: self.peer_id@,
            peers: assoc_view(self.peers@, peer_key(), queue_value()),
            inbox: queue_view(self.inbox@),
        }
    }
}

/// The detail of a connection error for a peer that is not registered.
pub open spec fn not_registered(peer_id: Seq<char>) -> Seq<char> {
    "peer "@ + peer_id + " not registered"@
}

impl LocalTransport {
    #[verifier::type_invariant]
    spec fn peers_distinct(self) -> bool {
        distinct_keys(self.peers@, peer_key())
    }

    /// The transport of `peer_id`, with no registered peers and nothing delivered.
    pub fn new(peer_id: &str) -> (r: Self)
        ensures
            r@.peer_id == peer_id@,
            r@.peers == Map::<Seq<char>, Seq<(Seq<char>, Seq<char>, MessageType, Seq<u8>, i64)>>::empty(),
            r@.inbox == Seq::<(Seq<char>, Seq<char>, MessageType, Seq<u8>, i64)>::empty(),
    {
        let r = LocalTransport { peer_id: String::from_str(peer_id), peers: Vec::new(), inbox: VecDeque::new() };
        assert(r@.peers =~= Map::<Seq<char>, Seq<(Seq<char>, Seq<char>, MessageType, Seq<u8>, i64)>>::empty());
        assert(r@.inbox =~= Seq::<(Seq<char>, Seq<char>, MessageType, Seq<u8>, i64)>::empty());
        r
    }

    /// Registers `peer_id` as reachable with a new, empty queue; a queue it had before is
    /// replaced.
    pub fn register_peer(&mut self, peer_id: &str)
        ensures
            final(self)@.peer_id == old(self)@.peer_id,
            final(self)@.inbox == old(self)@.inbox,
            final(self)@.peers == old(self)@.peers.insert(peer_id@, Seq::empty()),
    {
        proof { use_type_invariant(&*self); }
        let key = String::from_str(peer_id);
        let q: VecDeque<NetworkMessage> = VecDeque::new();
        proof {
            assert(queue_view(q@) =~= Seq::<(Seq<char>, Seq<char>, MessageType, Seq<u8>, i64)>::empty());
        }
        let ghost before = self.peers@;
        let mut t: Vec<(String, VecDeque<NetworkMessage>)> = Vec::new();
        std::mem::swap(&mut t, &mut self.peers);
        match find_by_name(&t, &key) {
            Some(i) => {
                proof { lemma_assoc_update(before, peer_key(), queue_value(), i as int, (key, q)); }
                let _old = t.remove(i);
                t.insert(i, (key, q));
                assert(t@ =~= before.update(i as int, (key, q)));
            },
            None => {
                proof {
                    if assoc_view(before, peer_key(), queue_value()).contains_key(peer_id@) {
                        let j = choose|j: int| 0 <= j < before.len() && before[j].0@ == peer_id@;
                    }
                    lemma_assoc_push(before, peer_key(), queue_value(), (key, q));
                }
                t.push((key, q));
            },
        }
        self.peers = t;
    }

    /// `Ok` when `peer` is registered, else a connection error naming it.
    pub fn connect(&self, peer: &PeerInfo) -> (r: Result<(), NetworkError>)
        ensures
            self@.peers.contains_key(peer.peer_id@) ==> r is Ok,
            !self@.peers.contains_key(peer.peer_id@) ==> (r matches Err(NetworkError::Connection(m)) && m@
                == not_registered(peer.peer_id@)),
    {
        proof { use_type_invariant(self); }
        match find_by_name(&self.peers, &peer.peer_id) {
            Some(i) => {
                proof { lemma_assoc_at(self.peers@, peer_key(), queue_value(), i as int); }
                Ok(())
            },
            None => {
                let mut m = String::from_str("peer ");
                m.append(peer.peer_id.as_str());
                m.append(" not registered");
                proof { reveal_strlit("peer "); reveal_strlit(" not registered"); }
                Err(NetworkError::Connection(m))
            },
        }
    }

    /// Queues a copy of `msg` for the registered peer `to`; `NotConnected` (no change) when
    /// `to` is not registered.
    pub fn send(&mut self, to: &str, msg: &NetworkMessage) -> (r: Result<(), NetworkError>)
        ensures
            final(self)@.peer_id == old(self)@.peer_id,
            final(self)@.inbox == old(self)@.inbox,
            !old(self)@.peers.contains_key(to@) ==> r == Err::<(), NetworkError>(NetworkError::NotConnected)
                && final(self)@ == old(self)@,
            old(self)@.peers.contains_key(to@) ==> r is Ok && final(self)@.peers == old(self)@.peers.insert(
                to@,
                old(self)@.peers[to@].push(message_view(*msg)),
            ),
    {
        proof { use_type_invariant(&*self); }
        let key = String::from_str(to);
        let i = match find_by_name(&self.peers, &key) {
            Some(i) => i,
            None => {
                proof {
                    if old(self)@.peers.contains_key(to@) {
                        let j = choose|j: int| 0 <= j < self.peers@.len() && self.peers@[j].0@ == to@;
                    }
                }
                return Err(NetworkError::NotConnected);
            },
        };
        proof { lemma_assoc_at(self.peers@, peer_key(), queue_value(), i as int); }
        let ghost before = self.peers@;
        let mut t: Vec<(String, VecDeque<NetworkMessage>)> = Vec::new();
        std::mem::swap(&mut t, &mut self.peers);
        let (name, mut q) = t.remove(i);
        let ghost q0 = q@;
        q.push_back(msg.copy());
        proof {
            assert(queue_view(q@) =~= queue_view(q0).push(message_view(*msg)));
            lemma_assoc_update(before, peer_key(), queue_value(), i as int, (name, q));
        }
        t.insert(i, (name, q));
        assert(t@ =~= before.update(i as int, (name, q)));
        self.peers = t;
        Ok(())
    }

    /// Takes the oldest message delivered to us, if any. Never fails.
    pub fn receive(&mut self) -> (r: Result<Option<NetworkMessage>, NetworkError>)
        ensures
            final(self)@.peer_id == old(self)@.peer_id,
            final(self)@.peers == old(self)@.peers,
            old(self)@.inbox.len() == 0 ==> r == Ok::<Option<NetworkMessage>, NetworkError>(None) && final(self)@.inbox
                == old(self)@.inbox,
            old(self)@.inbox.len() > 0 ==> (r matches Ok(Some(m)) && message_view(m) == old(self)@.inbox[0])
                && final(self)@.inbox == old(self)@.inbox.drop_first(),
    {
        proof { use_type_invariant(&*self); }
        let ghost q0 = self.inbox@;
        let mut q: VecDeque<NetworkMessage> = VecDeque::new();
        std::mem::swap(&mut q, &mut self.inbox);
        let m = q.pop_front();
        self.inbox = q;
        proof {
            if q0.len() > 0 {
                assert(queue_view(self.inbox@) =~= queue_view(q0).drop_first());
            }
        }
        Ok(m)
    }

    /// Appends `msg` to what has been delivered to us.
    pub fn deliver(&mut self, msg: NetworkMessage)
        ensures
            final(self)@.peer_id == old(self)@.peer_id,
            final(self)@.peers == old(self)@.peers,
            final(self)@.inbox == old(self)@.inbox.push(message_view(msg)),
    {
        proof { use_type_invariant(&*self); }
        let ghost q0 = self.inbox@;
        let mut q: VecDeque<NetworkMessage> = VecDeque::new();
        std::mem::swap(&mut q, &mut self.inbox);
        q.push_back(msg);
        self.inbox = q;
        assert(queue_view(self.inbox@) =~= queue_view(q0).push(message_view(msg)));
    }

    /// Takes all messages queued for `peer_id`, oldest first; none when it is not registered.
    pub fn take_outbox(&mut self, peer_id: &str) -> (r: Vec<NetworkMessage>)
        ensures
            final(self)@.peer_id == old(self)@.peer_id,
            final(self)@.inbox == old(self)@.inbox,
            !old(self)@.peers.contains_key(peer_id@) ==> r@.len() == 0 && final(self)@ == old(self)@,
            old(self)@.peers.contains_key(peer_id@) ==> queue_view(r@) == old(self)@.peers[peer_id@]
                && final(self)@.peers == old(self)@.peers.insert(peer_id@, Seq::empty()),
    {
        proof { use_type_invariant(&*self); }
        let key = String::from_str(peer_id);
        let i = match find_by_name(&self.peers, &key) {
            Some(i) => i,
            None => {
                proof {
                    if old(self)@.peers.contains_key(peer_id@) {
                        let j = choose|j: int| 0 <= j < self.peers@.len() && self.peers@[j].0@ == peer_id@;
                    }
                }
                return Vec::new();
            },
        };
        proof { lemma_assoc_at(self.peers@, peer_key(), queue_value(), i as int); }
        let ghost before = self.peers@;
        let mut t: Vec<(String, VecDeque<NetworkMessage>)> = Vec::new();
        std::mem::swap(&mut t, &mut self.peers);
        let (name, mut q) = t.remove(i);
        let ghost q0 = q@;
        let mut out: Vec<NetworkMessage> = Vec::new();
        while q.len() > 0
            invariant
                queue_view(out@) + queue_view(q@) == queue_view(q0),
            decreases q@.len(),
        {
            let ghost qb = q@;
            let ghost ob = out@;
            match q.pop_front() {
                Some(m) => {
                    out.push(m);
                    proof {
                        assert(queue_view(out@) =~= queue_view(ob).push(message_view(m)));
                        assert(queue_view(qb) =~= seq![message_view(m)] + queue_view(q@));
                        assert(queue_view(out@) + queue_view(q@) =~= queue_view(ob) + queue_view(qb));
                    }
                },
                None => {},
            }
        }
        proof {
            assert(queue_view(q@) =~= Seq::<(Seq<char>, Seq<char>, MessageType, Seq<u8>, i64)>::empty());
            assert(queue_view(out@) =~= queue_view(q0));
            lemma_assoc_update(before, peer_key(), queue_value(), i as int, (name, q));
        }
        t.insert(i, (name, q));
        assert(t@ =~= before.update(i as int, (name, q)));
        self.peers = t;
        out
    }

    /// Our peer id.
    pub fn local_peer_id(&self) -> (r: &str)
        ensures
            r@ == self@.peer_id,
    {
        self.peer_id.as_str()
    }
}


/// The peers' queues after `send(to[i], m[i])` for each `i` in turn (as `send` states each step).
pub open spec fn sends_after(
    peers: Map<Seq<char>, Seq<(Seq<char>, Seq<char>, MessageType, Seq<u8>, i64)>>,
    to: Seq<Seq<char>>,
    ms: Seq<(Seq<char>, Seq<char>, MessageType, Seq<u8>, i64)>,
) -> Map<Seq<char>, Seq<(Seq<char>, Seq<char>, MessageType, Seq<u8>, i64)>>
    decreases to.len(),
{
    if to.len() == 0 || ms.len() == 0 {
        peers
    } else {
        let p = sends_after(peers, to.drop_last(), ms.drop_last());
        if p.contains_key(to.last()) {
            p.insert(to.last(), p[to.last()].push(ms.last()))
        } else {
            p
        }
    }
}

/// The messages of `ms` addressed to `q`, in order.
pub open spec fn addressed_to(
    q: Seq<char>,
    to: Seq<Seq<char>>,
    ms: Seq<(Seq<char>, Seq<char>, MessageType, Seq<u8>, i64)>,
) -> Seq<(Seq<char>, Seq<char>, MessageType, Seq<u8>, i64)>
    decreases to.len(),
{
    if to.len() == 0 || ms.len() == 0 {
        Seq::empty()
    } else {
        let p = addressed_to(q, to.drop_last(), ms.drop_last());
        if to.last() == q {
            p.push(ms.last())
        } else {
            p
        }
    }
}

/// A registered peer's queue is first in, first out: after `register_peer(q)` and any sends,
/// `q`'s queue (what `take_outbox(q)` hands out) holds exactly the messages sent to `q`, in the
/// order they were sent; sends to peers never registered change nothing.
pub proof fn law_transport_fifo(
    peers: Map<Seq<char>, Seq<(Seq<char>, Seq<char>, MessageType, Seq<u8>, i64)>>,
    q: Seq<char>,
    to: Seq<Seq<char>>,
    ms: Seq<(Seq<char>, Seq<char>, MessageType, Seq<u8>, i64)>,
)
    requires
        to.len() == ms.len(),
    ensures
        sends_after(peers.insert(q, Seq::empty()), to, ms).contains_key(q),
        sends_after(peers.insert(q, Seq::empty()), to, ms)[q] == addressed_to(q, to, ms),
        sends_after(peers.insert(q, Seq::empty()), to, ms).dom() == peers.insert(q, Seq::empty()).dom(),
    decreases to.len(),
{
    if to.len() > 0 {
        law_transport_fifo(peers, q, to.drop_last(), ms.drop_last());
        let p = sends_after(peers.insert(q, Seq::empty()), to.drop_last(), ms.drop_last());
        if p.contains_key(to.last()) {
            assert(p.insert(to.last(), p[to.last()].push(ms.last())).dom() =~= p.dom());
        }
    }
}

} // verus!
