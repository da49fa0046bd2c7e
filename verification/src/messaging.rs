//! Messaging service: the sessions of a peer.
use vstd::prelude::*;
use vstd::string::*;
use crate::crypto::keys::IdentityKeyPair;
use crate::crypto::ratchet::RatchetView;
use crate::crypto::session::{message_outcome, EncryptedMessage, SessionManager, SessionManagerView};
use crate::crypto::aead::{aead_error_message, AeadError};

verus! {

/// A peer's messaging service: its peer id and its sessions.
pub struct MessagingService {
    pub peer_id: String,
    sessions: SessionManager,
}

impl MessagingService {
    /// The service of `peer_id` with identity `identity` and no sessions.
    pub fn new(identity: IdentityKeyPair, peer_id: String) -> (r: Self)
        ensures
            r.peer()@ == peer_id@,
            r.sessions_view()@.sessions == Map::<Seq<char>, RatchetView>::empty(),
            r.sessions_view()@.identity == identity@,
    {
        let sessions = SessionManager::new(identity);
        MessagingService { peer_id, sessions }
    }

    /// The peer id of this service.
    pub closed spec fn peer(&self) -> String {
        self.peer_id
    }

    /// The session manager.
    pub closed spec fn sessions_view(&self) -> SessionManager {
        self.sessions
    }

    /// The session manager, for changing.
    pub fn sessions_mut(&mut self) -> (r: &mut SessionManager)
        ensures
            *r == old(self).sessions_view(),
            final(self).sessions_view() == *final(r),
            final(self).peer() == old(self).peer(),
    {
        &mut self.sessions
    }

    /// Whether `send(to, ..)` can count one more message on that session.
    pub fn can_send(&self, to: &str) -> (r: bool)
        ensures
            r == (self.sessions_view()@.sessions.contains_key(to@) ==> (self.sessions_view()@.sessions[to@].send_ck
                is Some ==> self.sessions_view()@.sessions[to@].send_n < u32::MAX)),
    {
        self.sessions.can_encrypt_for(to)
    }

    /// Encrypts `plaintext` for `to` on its session, as `SessionManager::encrypt_for` with no
    /// initiator key; an error becomes its message.
    pub fn send(&mut self, to: &str, plaintext: &[u8]) -> (r: Result<EncryptedMessage, String>)
        requires
            old(self).sessions_view()@.sessions.contains_key(to@) ==> (old(self).sessions_view()@.sessions[to@].send_ck
                is Some ==> old(self).sessions_view()@.sessions[to@].send_n < u32::MAX),
        ensures
            final(self).peer() == old(self).peer(),
            !old(self).sessions_view()@.sessions.contains_key(to@) ==> (r matches Err(e) && e@
                == "encryption failed"@) && final(self).sessions_view()@ == old(self).sessions_view()@,
            old(self).sessions_view()@.sessions.contains_key(to@) ==> exists|
                fin: RatchetView,
                inner: Result<EncryptedMessage, AeadError>,
            |
                #[trigger] message_outcome(
                    old(self).sessions_view()@.sessions[to@],
                    plaintext@,
                    crate::crypto::session::session_aad(),
                    fin,
                    inner,
                    None,
                ) && reported_as(inner, r) && final(self).sessions_view()@ == (SessionManagerView {
                    sessions: old(self).sessions_view()@.sessions.insert(to@, fin),
                    ..old(self).sessions_view()@
                }),
    {
        let inner = self.sessions.encrypt_for(to, plaintext, None);
        match inner {
            Ok(m) => Ok(m),
            Err(e) => Err(e.to_string()),
        }
    }
}

/// `r` is the inner result with each error given by its message.
pub open spec fn reported_as(inner: Result<EncryptedMessage, AeadError>, r: Result<EncryptedMessage, String>) -> bool {
    match (inner, r) {
        (Ok(a), Ok(b)) => a == b,
        (Err(e), Err(t)) => t@ == aead_error_message(e),
        _ => false,
    }
}

} // verus!
