//! X3DH: extended triple Diffie-Hellman.
//! DH1 = DH(IKa, SPKb); DH2 = DH(EKa, IKb); DH3 = DH(EKa, SPKb);
//! the session keys are HKDF(DH1 || DH2 || DH3).
use vstd::prelude::*;
use crate::bytes::{append_bytes, to_array32, to_array64};
use crate::crypto::keys::{EphemeralKeyPair, IdentityKeyPair, SessionKeys};
use crate::crypto::primitives::{ed25519_public, ed25519_sign, ed25519_verify, hkdf_sha256, hkdf_sha256_expand, x25519_base, x25519_shared};

verus! {

/// The public keys a peer publishes so that others can start a session with it.
#[derive(Clone, Debug)]
pub struct PreKeyBundle {
    pub identity_ed25519: [u8; 32],
    pub identity_x25519: [u8; 32],
    pub signed_prekey: [u8; 32],
    pub signature: Vec<u8>,
}

impl PreKeyBundle {
    /// A copy of this bundle.
    pub fn copy(&self) -> (r: PreKeyBundle)
        ensures
            r.identity_ed25519 == self.identity_ed25519,
            r.identity_x25519 == self.identity_x25519,
            r.signed_prekey == self.signed_prekey,
            r.signature@ == self.signature@,
    {
        PreKeyBundle {
            identity_ed25519: self.identity_ed25519,
            identity_x25519: self.identity_x25519,
            signed_prekey: self.signed_prekey,
            signature: crate::bytes::bytes_to_vec(self.signature.as_slice()),
        }
    }
}

/// The bundle's signed prekey carries a 64-byte signature that verifies under its Ed25519
/// identity key.
pub open spec fn bundle_signed(b: PreKeyBundle) -> bool {
    b.signature@.len() == 64 && ed25519_verify(b.identity_ed25519@, b.signed_prekey@, b.signature@)
}

/// The HKDF info string of X3DH: `Liberty-X3DH-v2`.
pub open spec fn x3dh_info() -> Seq<u8> {
    seq![76u8, 105, 98, 101, 114, 116, 121, 45, 88, 51, 68, 72, 45, 118, 50]
}

/// The 96 bytes that X3DH derives from its three Diffie-Hellman outputs.
pub open spec fn x3dh_okm(dh1: Seq<u8>, dh2: Seq<u8>, dh3: Seq<u8>) -> Seq<u8> {
    hkdf_sha256(None, dh1 + dh2 + dh3, x3dh_info(), 96)
}

/// (send, receive, chain) keys from the 96 derived bytes: the initiator sends with the first
/// 32 bytes and receives with the next 32, the responder the other way round; the last 32
/// are the chain key of both.
pub open spec fn keys_from_okm(okm: Seq<u8>, initiator: bool) -> (Seq<u8>, Seq<u8>, Seq<u8>) {
    if initiator {
        (okm.subrange(0, 32), okm.subrange(32, 64), okm.subrange(64, 96))
    } else {
        (okm.subrange(32, 64), okm.subrange(0, 32), okm.subrange(64, 96))
    }
}

/// The (send, receive, chain) keys of a `SessionKeys`.
pub open spec fn session_keys_view(k: SessionKeys) -> (Seq<u8>, Seq<u8>, Seq<u8>) {
    (k.send_key@, k.recv_key@, k.chain_key@)
}

/// The keys an initiator with X25519 identity secret `ik` and ephemeral secret `ek` derives
/// against a bundle with signed prekey `spk_pub` and X25519 identity `their_ik_pub`.
pub open spec fn x3dh_initiator_keys(ik: Seq<u8>, ek: Seq<u8>, spk_pub: Seq<u8>, their_ik_pub: Seq<u8>) -> (Seq<u8>, Seq<u8>, Seq<u8>) {
    keys_from_okm(
        x3dh_okm(x25519_shared(ik, spk_pub), x25519_shared(ek, their_ik_pub), x25519_shared(ek, spk_pub)),
        true,
    )
}

/// The keys a responder with X25519 identity secret `ik` and signed-prekey secret `spk`
/// derives from an initiator's X25519 identity `their_ik_pub` and ephemeral `their_ek_pub`.
pub open spec fn x3dh_responder_keys(ik: Seq<u8>, spk: Seq<u8>, their_ik_pub: Seq<u8>, their_ek_pub: Seq<u8>) -> (Seq<u8>, Seq<u8>, Seq<u8>) {
    keys_from_okm(
        x3dh_okm(x25519_shared(spk, their_ik_pub), x25519_shared(ik, their_ek_pub), x25519_shared(spk, their_ek_pub)),
        false,
    )
}

/// The other side's view of (send, receive, chain): send and receive exchanged.
pub open spec fn swap_keys(k: (Seq<u8>, Seq<u8>, Seq<u8>)) -> (Seq<u8>, Seq<u8>, Seq<u8>) {
    (k.1, k.0, k.2)
}

/// The X3DH handshake.
pub struct X3DH;

impl X3DH {
    /// A bundle for `identity` with a fresh signed prekey, and that prekey. The prekey is
    /// drawn at random; the bundle carries the identity's public keys, the prekey's public key
    /// and the identity's signature of it.
    pub fn create_bundle(identity: &IdentityKeyPair) -> (r: (PreKeyBundle, EphemeralKeyPair))
        ensures
            r.0.identity_ed25519@ == ed25519_public(identity@.0),
            r.0.identity_x25519@ == x25519_base(identity@.1),
            r.0.signed_prekey@ == x25519_base(r.1@),
            r.0.signature@ == ed25519_sign(identity@.0, r.0.signed_prekey@),
            r.0.signature@.len() == 64,
            r.1@.len() == 32,
    {
        let signed_prekey = EphemeralKeyPair::generate();
        let spk_pub = signed_prekey.public_bytes();
        let sig = identity.sign(spk_pub.as_slice());
        let bundle = PreKeyBundle {
            identity_ed25519: identity.public_key_bytes(),
            identity_x25519: identity.dh_public_bytes(),
            signed_prekey: spk_pub,
            signature: crate::bytes::bytes_to_vec(sig.as_slice()),
        };
        (bundle, signed_prekey)
    }

    /// Starts a session with the owner of `their_bundle` under a fresh ephemeral key: the
    /// initiator's keys, the ephemeral public key and the ephemeral key pair. The bundle's
    /// signed prekey must carry a valid 64-byte Ed25519 signature under its identity key;
    /// otherwise the bundle is refused. A bundle that `create_bundle` made is accepted.
    pub fn initiate(our_identity: &IdentityKeyPair, their_bundle: &PreKeyBundle) -> (r: Result<
        (SessionKeys, [u8; 32], EphemeralKeyPair),
        &'static str,
    >)
        ensures
            r is Ok <==> bundle_signed(*their_bundle),
            forall|sk: Seq<u8>|
                sk.len() == 32 && their_bundle.signature@.len() == 64 && their_bundle.identity_ed25519@
                    == ed25519_public(sk) && their_bundle.signature@ == #[trigger] ed25519_sign(
                    sk,
                    their_bundle.signed_prekey@,
                ) ==> r is Ok,
            r matches Ok(t) ==> t.1@ == x25519_base(t.2@) && t.2@.len() == 32 && session_keys_view(t.0)
                == x3dh_initiator_keys(
                our_identity@.1,
                t.2@,
                their_bundle.signed_prekey@,
                their_bundle.identity_x25519@,
            ),
    {
        if their_bundle.signature.len() != 64 {
            return Err("invalid signed prekey signature");
        }
        let sig = to_array64(their_bundle.signature.as_slice());
        if !IdentityKeyPair::verify(&their_bundle.identity_ed25519, their_bundle.signed_prekey.as_slice(), &sig) {
            return Err("invalid signed prekey signature");
        }
        let our_eph = EphemeralKeyPair::generate();
        let dh1 = our_identity.diffie_hellman(&their_bundle.signed_prekey);
        let dh2 = our_eph.diffie_hellman(&their_bundle.identity_x25519);
        let dh3 = our_eph.diffie_hellman(&their_bundle.signed_prekey);
        let keys = combine(dh1.as_slice(), dh2.as_slice(), dh3.as_slice(), true);
        let eph_pub = our_eph.public_bytes();
        Ok((keys, eph_pub, our_eph))
    }

    /// The responder's side: keys from its identity and signed prekey and the initiator's
    /// X25519 identity and ephemeral public keys. Never fails. When those public keys belong
    /// to secrets `ik_a` and `ek_a`, these are the initiator's keys with send and receive
    /// exchanged: both sides agree.
    pub fn respond(
        our_identity: &IdentityKeyPair,
        our_signed_prekey: &EphemeralKeyPair,
        their_identity_x25519: &[u8; 32],
        their_ephemeral: &[u8; 32],
    ) -> (r: Result<SessionKeys, &'static str>)
        ensures
            r is Ok,
            r matches Ok(k) ==> session_keys_view(k) == x3dh_responder_keys(
                our_identity@.1,
                our_signed_prekey@,
                their_identity_x25519@,
                their_ephemeral@,
            ),
            forall|ik_a: Seq<u8>, ek_a: Seq<u8>|
                ik_a.len() == 32 && ek_a.len() == 32 && their_identity_x25519@ == #[trigger] x25519_base(ik_a)
                    && their_ephemeral@ == #[trigger] x25519_base(ek_a) ==> (r matches Ok(k)
                    && session_keys_view(k) == swap_keys(
                    x3dh_initiator_keys(ik_a, ek_a, x25519_base(our_signed_prekey@), x25519_base(our_identity@.1)),
                )),
    {
        let dh1 = our_signed_prekey.diffie_hellman(their_identity_x25519);
        let dh2 = our_identity.diffie_hellman(their_ephemeral);
        let dh3 = our_signed_prekey.diffie_hellman(their_ephemeral);
        let keys = combine(dh1.as_slice(), dh2.as_slice(), dh3.as_slice(), false);
        proof {
            assert forall|ik_a: Seq<u8>, ek_a: Seq<u8>|
                ik_a.len() == 32 && ek_a.len() == 32 && their_identity_x25519@ == #[trigger] x25519_base(ik_a)
                    && their_ephemeral@ == #[trigger] x25519_base(ek_a) implies session_keys_view(keys)
                    == swap_keys(
                    x3dh_initiator_keys(ik_a, ek_a, x25519_base(our_signed_prekey@), x25519_base(our_identity@.1)),
                ) by {
                assert(dh1@ == x25519_shared(ik_a, x25519_base(our_signed_prekey@)));
                assert(dh2@ == x25519_shared(ek_a, x25519_base(our_identity@.1)));
                assert(dh3@ == x25519_shared(ek_a, x25519_base(our_signed_prekey@)));
            }
        }
        Ok(keys)
    }
}

/// Session keys from the three Diffie-Hellman outputs.
fn combine(dh1: &[u8], dh2: &[u8], dh3: &[u8], initiator: bool) -> (r: SessionKeys)
    ensures
        session_keys_view(r) == keys_from_okm(x3dh_okm(dh1@, dh2@, dh3@), initiator),
{
    let mut ikm: Vec<u8> = Vec::new();
    append_bytes(&mut ikm, dh1);
    append_bytes(&mut ikm, dh2);
    append_bytes(&mut ikm, dh3);
    let info: [u8; 15] = [76, 105, 98, 101, 114, 116, 121, 45, 88, 51, 68, 72, 45, 118, 50];
    assert(info@ =~= x3dh_info());
    assert(ikm@ =~= dh1@ + dh2@ + dh3@);
    let okm = hkdf_sha256_expand(None, ikm.as_slice(), info.as_slice(), 96);
    let k1 = to_array32(&okm.as_slice()[0..32]);
    let k2 = to_array32(&okm.as_slice()[32..64]);
    let root = to_array32(&okm.as_slice()[64..96]);
    if initiator {
        SessionKeys { send_key: k1, recv_key: k2, chain_key: root }
    } else {
        SessionKeys { send_key: k2, recv_key: k1, chain_key: root }
    }
}

} // verus!
