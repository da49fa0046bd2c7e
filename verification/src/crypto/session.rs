//! Session management: X3DH handshakes and one Double Ratchet session per peer.
use vstd::prelude::*;
use vstd::string::*;
use crate::assoc::{assoc_view, distinct_keys, find_by_name, lemma_assoc_at, lemma_assoc_push, lemma_assoc_update};
use crate::crypto::aead::AeadError;
use crate::crypto::keys::{EphemeralKeyPair, IdentityKeyPair, SessionKeys};
use crate::crypto::primitives::{ed25519_public, ed25519_sign, x25519_base};
use crate::crypto::ratchet::{
    decrypt_in_range, decrypt_outcome, encrypt_outcome, initial_view, ratchet_dh_agrees, MessageHeader, RatchetSession,
    RatchetView,
};
use crate::crypto::x3dh::{bundle_signed, swap_keys, x3dh_initiator_keys, x3dh_responder_keys, PreKeyBundle, X3DH};

verus! {

/// An encrypted message as it travels: ratchet header, ciphertext, send time, and the
/// initiator's ephemeral key on the first messages of a session.
#[derive(Clone, Debug)]
pub struct EncryptedMessage {
    pub header: MessageHeader,
    pub ciphertext: Vec<u8>,
    pub timestamp: i64,
    pub initiator_ephemeral: Option<[u8; 32]>,
}

/// The current time in whole seconds since the Unix epoch (`chrono::Utc::now().timestamp()`).
/// It depends on the clock, so nothing is stated of it.
#[verifier::external_body]
fn unix_now() -> (r: i64) {
    chrono::Utc::now().timestamp()
}

/// The state of a session manager, as values.
pub struct SessionManagerView {
    /// Sessions by peer id.
    pub sessions: Map<Seq<char>, RatchetView>,
    /// The (Ed25519, X25519) secrets of our identity.
    pub identity: (Seq<u8>, Seq<u8>),
    /// The secret of our signed prekey.
    pub signed_prekey: Option<Seq<u8>>,
}

/// Sessions with peers, keyed by peer id.
pub struct SessionManager {
    sessions: Vec<(String, RatchetSession)>,
    our_identity: IdentityKeyPair,
    our_bundle: Option<PreKeyBundle>,
    our_signed_prekey: Option<EphemeralKeyPair>,
}

/// The view of a peer-id key.
pub open spec fn name_view() -> spec_fn(String) -> Seq<char> {
    |k: String| k@
}

/// The view of a session value.
pub open spec fn session_view() -> spec_fn(RatchetSession) -> RatchetView {
    |v: RatchetSession| v@
}

impl View for SessionManager {
    type V = SessionManagerView;

    closed spec fn view(&self) -> SessionManagerView {
        SessionManagerView {
            sessions: assoc_view(self.sessions@, name_view(), session_view()),
            identity: self.our_identity@,
            signed_prekey: match self.our_signed_prekey {
                Some(k) => Some(k@),
                None => None,
            },
        }
    }
}

/// `Liberty-Session-v1`: the associated data of every session message. Both ends of a session
/// use this label, whatever names they give each other.
pub open spec fn session_aad() -> Seq<u8> {
    seq![76u8, 105, 98, 101, 114, 116, 121, 45, 83, 101, 115, 115, 105, 111, 110, 45, 118, 49]
}

/// `encrypt_for`'s outcome on a session in state `s` that ends in `fin`.
pub open spec fn message_outcome(
    s: RatchetView,
    pt: Seq<u8>,
    aad: Seq<u8>,
    fin: RatchetView,
    r: Result<EncryptedMessage, AeadError>,
    eph: Option<[u8; 32]>,
) -> bool {
    match r {
        Ok(m) => m.initiator_ephemeral == eph && encrypt_outcome(
            s,
            pt,
            aad,
            fin,
            Ok::<(MessageHeader, Vec<u8>), AeadError>((m.header, m.ciphertext)),
        ),
        Err(e) => encrypt_outcome(s, pt, aad, fin, Err::<(MessageHeader, Vec<u8>), AeadError>(e)),
    }
}

impl SessionManager {
    #[verifier::type_invariant]
    spec fn peers_distinct(self) -> bool {
        distinct_keys(self.sessions@, name_view())
    }

    /// A manager for `our_identity` with no sessions and a fresh signed prekey bundle.
    pub fn new(our_identity: IdentityKeyPair) -> (r: Self)
        ensures
            r@.sessions == Map::<Seq<char>, RatchetView>::empty(),
            r@.identity == our_identity@,
            r@.signed_prekey is Some,
            r@.signed_prekey->0.len() == 32,
            r.our_prekey_bundle_spec() matches Some(b) && b.identity_ed25519@ == ed25519_public(our_identity@.0)
                && b.identity_x25519@ == x25519_base(our_identity@.1) && b.signed_prekey@ == x25519_base(
                r@.signed_prekey->0,
            ) && b.signature@ == ed25519_sign(our_identity@.0, b.signed_prekey@) && b.signature@.len() == 64,
    {
        let (bundle, signed_prekey) = X3DH::create_bundle(&our_identity);
        let r = SessionManager {
            sessions: Vec::new(),
            our_identity,
            our_bundle: Some(bundle),
            our_signed_prekey: Some(signed_prekey),
        };
        assert(r@.sessions =~= Map::<Seq<char>, RatchetView>::empty());
        r
    }

    /// The prekey bundle this manager publishes.
    pub closed spec fn our_prekey_bundle_spec(&self) -> Option<PreKeyBundle> {
        self.our_bundle
    }

    /// Our published prekey bundle.
    pub fn our_prekey_bundle(&self) -> (r: Option<&PreKeyBundle>)
        ensures
            r matches Some(b) ==> self.our_prekey_bundle_spec() == Some(*b),
            r is None <==> self.our_prekey_bundle_spec() is None,
    {
        match &self.our_bundle {
            Some(b) => Some(b),
            None => None,
        }
    }

    fn put_session(&mut self, peer_id: &str, session: RatchetSession)
        ensures
            final(self)@ == (SessionManagerView {
                sessions: old(self)@.sessions.insert(peer_id@, session@),
                ..old(self)@
            }),
            final(self).our_prekey_bundle_spec() == old(self).our_prekey_bundle_spec(),
    {
        proof { use_type_invariant(&*self); }
        let key = String::from_str(peer_id);
        let mut v: Vec<(String, RatchetSession)> = Vec::new();
        std::mem::swap(&mut v, &mut self.sessions);
        match find_by_name(&v, &key) {
            Some(i) => {
                proof { lemma_assoc_update(v@, name_view(), session_view(), i as int, (key, session)); }
                let _old = v.remove(i);
                v.insert(i, (key, session));
                assert(v@ =~= old(self).sessions@.update(i as int, (key, session)));
            },
            None => {
                proof { lemma_assoc_push(v@, name_view(), session_view(), (key, session)); }
                v.push((key, session));
            },
        }
        self.sessions = v;
    }

    /// Starts a session with the owner of `their_bundle` as initiator and returns our ephemeral
    /// public key. A bundle whose signed prekey signature does not verify is refused with
    /// `Encrypt` (no change). The ephemeral secret `e` and the ratchet's sending secret `a`
    /// are drawn at random; the new session is the initiator's start from the X3DH keys.
    pub fn start_as_initiator(&mut self, peer_id: &str, their_bundle: &PreKeyBundle) -> (r: Result<[u8; 32], AeadError>)
        ensures
            r is Ok <==> bundle_signed(*their_bundle),
            forall|sk: Seq<u8>|
                sk.len() == 32 && their_bundle.signature@.len() == 64 && their_bundle.identity_ed25519@
                    == ed25519_public(sk) && their_bundle.signature@ == #[trigger] ed25519_sign(
                    sk,
                    their_bundle.signed_prekey@,
                ) ==> r is Ok,
            r is Err ==> r == Err::<[u8; 32], AeadError>(AeadError::Encrypt) && final(self)@ == old(self)@,
            final(self).our_prekey_bundle_spec() == old(self).our_prekey_bundle_spec(),
            r matches Ok(eph) ==> exists|e: Seq<u8>, a: Seq<u8>|
                e.len() == 32 && a.len() == 32 && eph@ == x25519_base(e) && final(self)@ == (
                SessionManagerView {
                    sessions: old(self)@.sessions.insert(
                        peer_id@,
                        #[trigger] initial_view(
                            x3dh_initiator_keys(
                                old(self)@.identity.1,
                                e,
                                their_bundle.signed_prekey@,
                                their_bundle.identity_x25519@,
                            ),
                            true,
                            a,
                        ),
                    ),
                    ..old(self)@
                }),
    {
        let (keys, our_eph_pub, our_eph) = match X3DH::initiate(&self.our_identity, their_bundle) {
            Ok(t) => t,
            Err(_) => return Err(AeadError::Encrypt),
        };
        let session = RatchetSession::new(keys, true);
        let ghost e = our_eph@;
        let ghost a = session@.dh_send->0;
        self.put_session(peer_id, session);
        assert(our_eph_pub@ == x25519_base(e));
        Ok(our_eph_pub)
    }

    /// Starts a session as responder to an initiator with these X25519 identity and ephemeral
    /// public keys. `Decrypt` (no change) without a signed prekey; otherwise the new session is
    /// the responder's start from the X3DH keys, which are the initiator's with send and
    /// receive exchanged.
    pub fn start_as_responder(
        &mut self,
        peer_id: &str,
        their_identity_x25519: &[u8; 32],
        their_ephemeral: &[u8; 32],
    ) -> (r: Result<(), AeadError>)
        ensures
            final(self).our_prekey_bundle_spec() == old(self).our_prekey_bundle_spec(),
            old(self)@.signed_prekey is None ==> r == Err::<(), AeadError>(AeadError::Decrypt) && final(self)@
                == old(self)@,
            old(self)@.signed_prekey is Some ==> r is Ok && final(self)@ == (SessionManagerView {
                sessions: old(self)@.sessions.insert(
                    peer_id@,
                    initial_view(
                        x3dh_responder_keys(
                            old(self)@.identity.1,
                            old(self)@.signed_prekey->0,
                            their_identity_x25519@,
                            their_ephemeral@,
                        ),
                        false,
                        Seq::empty(),
                    ),
                ),
                ..old(self)@
            }),
            old(self)@.signed_prekey is Some ==> forall|ik_a: Seq<u8>, ek_a: Seq<u8>|
                ik_a.len() == 32 && ek_a.len() == 32 && their_identity_x25519@ == #[trigger] x25519_base(ik_a)
                    && their_ephemeral@ == #[trigger] x25519_base(ek_a) ==> final(self)@.sessions[peer_id@]
                    == initial_view(
                    swap_keys(
                        x3dh_initiator_keys(
                            ik_a,
                            ek_a,
                            x25519_base(old(self)@.signed_prekey->0),
                            x25519_base(old(self)@.identity.1),
                        ),
                    ),
                    false,
                    Seq::empty(),
                ),
    {
        let keys = match &self.our_signed_prekey {
            None => return Err(AeadError::Decrypt),
            Some(spk) => match X3DH::respond(&self.our_identity, spk, their_identity_x25519, their_ephemeral) {
                Ok(k) => k,
                Err(_) => return Err(AeadError::Decrypt),
            },
        };
        let session = RatchetSession::new(keys, false);
        self.put_session(peer_id, session);
        Ok(())
    }

    /// Starts (or replaces) the session with `peer_id` from already shared keys. As initiator the
    /// ratchet's sending secret `a` is drawn at random.
    pub fn start_session(&mut self, peer_id: &str, shared: SessionKeys, is_initiator: bool)
        ensures
            final(self).our_prekey_bundle_spec() == old(self).our_prekey_bundle_spec(),
            exists|a: Seq<u8>|
                final(self)@ == (SessionManagerView {
                    sessions: old(self)@.sessions.insert(
                        peer_id@,
                        #[trigger] initial_view(
                            (shared.send_key@, shared.recv_key@, shared.chain_key@),
                            is_initiator,
                            a,
                        ),
                    ),
                    ..old(self)@
                }),
    {
        let session = RatchetSession::new(shared, is_initiator);
        self.put_session(peer_id, session);
    }

    /// Encrypts `plaintext` on the session with `peer_id`, with `session_aad` as associated data.
    /// `Encrypt` (no change) without such a session; otherwise the session advances as
    /// `RatchetSession::encrypt` says and the message carries the current time and
    /// `initiator_ephemeral`.
    pub fn encrypt_for(
        &mut self,
        peer_id: &str,
        plaintext: &[u8],
        initiator_ephemeral: Option<[u8; 32]>,
    ) -> (r: Result<EncryptedMessage, AeadError>)
        requires
            old(self)@.sessions.contains_key(peer_id@) ==> (old(self)@.sessions[peer_id@].send_ck is Some
                ==> old(self)@.sessions[peer_id@].send_n < u32::MAX),
        ensures
            final(self).our_prekey_bundle_spec() == old(self).our_prekey_bundle_spec(),
            !old(self)@.sessions.contains_key(peer_id@) ==> r == Err::<EncryptedMessage, AeadError>(
                AeadError::Encrypt,
            ) && final(self)@ == old(self)@,
            old(self)@.sessions.contains_key(peer_id@) ==> exists|fin: RatchetView|
                #[trigger] message_outcome(
                    old(self)@.sessions[peer_id@],
                    plaintext@,
                    session_aad(),
                    fin,
                    r,
                    initiator_ephemeral,
                ) && final(self)@ == (SessionManagerView {
                    sessions: old(self)@.sessions.insert(peer_id@, fin),
                    ..old(self)@
                }),
    {
        proof { use_type_invariant(&*self); }
        let key = String::from_str(peer_id);
        let i = match find_by_name(&self.sessions, &key) {
            Some(i) => i,
            None => {
                proof {
                    if old(self)@.sessions.contains_key(peer_id@) {
                        let j = choose|j: int| 0 <= j < self.sessions@.len() && self.sessions@[j].0@ == peer_id@;
                    }
                }
                return Err(AeadError::Encrypt);
            },
        };
        proof { lemma_assoc_at(self.sessions@, name_view(), session_view(), i as int); }
        let mut v: Vec<(String, RatchetSession)> = Vec::new();
        std::mem::swap(&mut v, &mut self.sessions);
        let (name, mut session) = v.remove(i);
        let label: [u8; 18] = [76, 105, 98, 101, 114, 116, 121, 45, 83, 101, 115, 115, 105, 111, 110, 45, 118, 49];
        assert(label@ =~= session_aad());
        let aad = label.as_slice();
        let res = session.encrypt(plaintext, aad);
        let ghost fin = session@;
        proof { lemma_assoc_update(old(self).sessions@, name_view(), session_view(), i as int, (name, session)); }
        v.insert(i, (name, session));
        assert(v@ =~= old(self).sessions@.update(i as int, (name, session)));
        self.sessions = v;
        let r = match res {
            Ok((header, ciphertext)) => Ok(
                EncryptedMessage { header, ciphertext, timestamp: unix_now(), initiator_ephemeral },
            ),
            Err(e) => Err(e),
        };
        assert(message_outcome(old(self)@.sessions[peer_id@], plaintext@, session_aad(), fin, r, initiator_ephemeral));
        r
    }

    /// Decrypts `msg` on the session with `peer_id`, with `session_aad` as associated data.
    /// `Decrypt` (no change) without such a session; otherwise as `RatchetSession::decrypt`.
    pub fn decrypt_from(&mut self, peer_id: &str, msg: &EncryptedMessage) -> (r: Result<Vec<u8>, AeadError>)
        requires
            old(self)@.sessions.contains_key(peer_id@) ==> decrypt_in_range(
                old(self)@.sessions[peer_id@],
                msg.header.dh_public@,
                msg.header.n,
            ),
        ensures
            final(self).our_prekey_bundle_spec() == old(self).our_prekey_bundle_spec(),
            !old(self)@.sessions.contains_key(peer_id@) ==> r == Err::<Vec<u8>, AeadError>(AeadError::Decrypt)
                && final(self)@ == old(self)@,
            old(self)@.sessions.contains_key(peer_id@) ==> exists|fresh: Seq<u8>, fin: RatchetView|
                fresh.len() == 32 && #[trigger] decrypt_outcome(
                    old(self)@.sessions[peer_id@],
                    msg.header.dh_public@,
                    msg.header.n,
                    msg.ciphertext@,
                    session_aad(),
                    fresh,
                    fin,
                    r,
                ) && (!old(self)@.sessions[peer_id@].skipped.contains_key((msg.header.dh_public@, msg.header.n))
                    && old(self)@.sessions[peer_id@].dh_recv != Some(msg.header.dh_public@) ==> ratchet_dh_agrees(
                    old(self)@.sessions[peer_id@],
                    msg.header.dh_public@,
                    fresh,
                )) && final(self)@ == (SessionManagerView {
                    sessions: old(self)@.sessions.insert(peer_id@, fin),
                    ..old(self)@
                }),
    {
        proof { use_type_invariant(&*self); }
        let key = String::from_str(peer_id);
        let i = match find_by_name(&self.sessions, &key) {
            Some(i) => i,
            None => {
                proof {
                    if old(self)@.sessions.contains_key(peer_id@) {
                        let j = choose|j: int| 0 <= j < self.sessions@.len() && self.sessions@[j].0@ == peer_id@;
                    }
                }
                return Err(AeadError::Decrypt);
            },
        };
        proof { lemma_assoc_at(self.sessions@, name_view(), session_view(), i as int); }
        let mut v: Vec<(String, RatchetSession)> = Vec::new();
        std::mem::swap(&mut v, &mut self.sessions);
        let (name, mut session) = v.remove(i);
        let label: [u8; 18] = [76, 105, 98, 101, 114, 116, 121, 45, 83, 101, 115, 115, 105, 111, 110, 45, 118, 49];
        assert(label@ =~= session_aad());
        let aad = label.as_slice();
        let r = session.decrypt(&msg.header, msg.ciphertext.as_slice(), aad);
        proof { lemma_assoc_update(old(self).sessions@, name_view(), session_view(), i as int, (name, session)); }
        v.insert(i, (name, session));
        assert(v@ =~= old(self).sessions@.update(i as int, (name, session)));
        self.sessions = v;
        r
    }

    /// Whether `encrypt_for(peer_id, ..)` can count one more message on that session.
    pub fn can_encrypt_for(&self, peer_id: &str) -> (r: bool)
        ensures
            r == (self@.sessions.contains_key(peer_id@) ==> (self@.sessions[peer_id@].send_ck is Some
                ==> self@.sessions[peer_id@].send_n < u32::MAX)),
    {
        proof { use_type_invariant(self); }
        let key = String::from_str(peer_id);
        match find_by_name(&self.sessions, &key) {
            Some(i) => {
                proof { lemma_assoc_at(self.sessions@, name_view(), session_view(), i as int); }
                self.sessions[i].1.can_encrypt()
            },
            None => {
                proof {
                    if self@.sessions.contains_key(peer_id@) {
                        let j = choose|j: int| 0 <= j < self.sessions@.len() && self.sessions@[j].0@ == peer_id@;
                    }
                }
                true
            },
        }
    }

    /// Whether there is a session with `peer_id`.
    pub fn has_session(&self, peer_id: &str) -> (r: bool)
        ensures
            r == self@.sessions.contains_key(peer_id@),
    {
        proof { use_type_invariant(self); }
        let key = String::from_str(peer_id);
        match find_by_name(&self.sessions, &key) {
            Some(i) => {
                proof { lemma_assoc_at(self.sessions@, name_view(), session_view(), i as int); }
                true
            },
            None => {
                proof {
                    if self@.sessions.contains_key(peer_id@) {
                        let j = choose|j: int| 0 <= j < self.sessions@.len() && self.sessions@[j].0@ == peer_id@;
                    }
                }
                false
            },
        }
    }

    /// The ids of all peers with a session, each once.
    pub fn peer_ids(&self) -> (r: Vec<String>)
        ensures
            forall|i: int, j: int| 0 <= i < r@.len() && 0 <= j < r@.len() && i != j ==> r@[i]@ != r@[j]@,
            forall|i: int| 0 <= i < r@.len() ==> self@.sessions.contains_key(#[trigger] r@[i]@),
            forall|k: Seq<char>| self@.sessions.contains_key(k) ==> exists|i: int| 0 <= i < r@.len() && #[trigger] r@[i]@ == k,
    {
        proof { use_type_invariant(self); }
        let mut out: Vec<String> = Vec::new();
        let n = self.sessions.len();
        let mut i: usize = 0;
        while i < n
            invariant
                n == self.sessions@.len(),
                i <= n,
                out@.len() == i,
                forall|j: int| 0 <= j < i ==> #[trigger] out@[j]@ == self.sessions@[j].0@,
            decreases n - i,
        {
            out.push(self.sessions[i].0.clone());
            i = i + 1;
        }
        proof {
            let m = self@.sessions;
            assert forall|j: int| 0 <= j < out@.len() implies m.contains_key(#[trigger] out@[j]@) by {
                lemma_assoc_at(self.sessions@, name_view(), session_view(), j);
            }
            assert forall|k: Seq<char>| m.contains_key(k) implies exists|j: int| 0 <= j < out@.len() && #[trigger] out@[j]@ == k by {
                let j = choose|j: int| 0 <= j < self.sessions@.len() && self.sessions@[j].0@ == k;
                assert(out@[j]@ == k);
            }
        }
        out
    }
}

/// End-to-end delivery: when the initiator's session (started from X3DH keys `k` with sending
/// secret `a`) encrypts its first message `m` of `pt`, the responder's session (started from
/// the same keys with send and receive exchanged, as `start_as_responder` gives it) decrypts
/// `m` to `pt`, whatever fresh secret `f` it draws. Both ends use `session_aad`.
pub proof fn law_session_first_message(
    k: (Seq<u8>, Seq<u8>, Seq<u8>),
    a: Seq<u8>,
    f: Seq<u8>,
    pt: Seq<u8>,
    eph: Option<[u8; 32]>,
    sent: RatchetView,
    m: EncryptedMessage,
    received: RatchetView,
    r: Result<Vec<u8>, AeadError>,
)
    requires
        message_outcome(initial_view(k, true, a), pt, session_aad(), sent, Ok(m), eph),
        decrypt_outcome(
            initial_view(swap_keys(k), false, Seq::empty()),
            m.header.dh_public@,
            m.header.n,
            m.ciphertext@,
            session_aad(),
            f,
            received,
            r,
        ),
    ensures
        crate::crypto::aead::bytes_result(r) == Ok::<Seq<u8>, AeadError>(pt),
{
    crate::crypto::ratchet::law_first_message_round_trip(
        k,
        a,
        f,
        pt,
        session_aad(),
        sent,
        m.header,
        m.ciphertext,
        received,
        r,
    );
}

/// Two session managers deliver to each other: when manager A (X25519 identity secret `ik_a`)
/// starts as initiator with B's bundle under ephemeral secret `e` and sending secret `a`, and
/// B (identity secret `ik_b`, signed prekey secret `spk_b`) starts as responder with A's
/// X25519 identity key and `x25519_base(e)`, their sessions are exactly the two below (what
/// `start_as_initiator` and `start_as_responder` state), and A's first message decrypts at B to
/// its plaintext.
pub proof fn law_managers_first_message(
    ik_a: Seq<u8>,
    e: Seq<u8>,
    a: Seq<u8>,
    ik_b: Seq<u8>,
    spk_b: Seq<u8>,
    f: Seq<u8>,
    pt: Seq<u8>,
    eph: Option<[u8; 32]>,
    sent: RatchetView,
    m: EncryptedMessage,
    received: RatchetView,
    r: Result<Vec<u8>, AeadError>,
)
    requires
        message_outcome(
            initial_view(x3dh_initiator_keys(ik_a, e, x25519_base(spk_b), x25519_base(ik_b)), true, a),
            pt,
            session_aad(),
            sent,
            Ok(m),
            eph,
        ),
        decrypt_outcome(
            initial_view(
                swap_keys(x3dh_initiator_keys(ik_a, e, x25519_base(spk_b), x25519_base(ik_b))),
                false,
                Seq::empty(),
            ),
            m.header.dh_public@,
            m.header.n,
            m.ciphertext@,
            session_aad(),
            f,
            received,
            r,
        ),
    ensures
        crate::crypto::aead::bytes_result(r) == Ok::<Seq<u8>, AeadError>(pt),
{
    law_session_first_message(
        x3dh_initiator_keys(ik_a, e, x25519_base(spk_b), x25519_base(ik_b)),
        a,
        f,
        pt,
        eph,
        sent,
        m,
        received,
        r,
    );
}

} // verus!
