//! Post-quantum hybrid key exchange: X25519 combined with Kyber768.
use vstd::prelude::*;
use crate::bytes::{append_bytes, bytes_to_vec, to_array32};
use crate::crypto::keys::{EphemeralKeyPair, SessionKeys};
use crate::crypto::primitives::{
    hkdf_sha256, hkdf_sha256_expand, kyber768_decapsulate, kyber768_decapsulate_bytes, kyber768_encapsulate,
    kyber768_keypair, x25519_base, x25519_shared,
};
use crate::crypto::x3dh::{keys_from_okm, session_keys_view};

verus! {

/// A hybrid public key: an X25519 key and a Kyber768 key (empty when only classical).
#[derive(Clone, Debug)]
pub struct PqPublicKey {
    pub classical: [u8; 32],
    pub pq: Vec<u8>,
}

/// A hybrid shared secret.
pub struct PqSharedSecret {
    pub bytes: [u8; 32],
}

/// A Kyber768 key pair.
pub struct PqKeyPair {
    pub public: Vec<u8>,
    pub secret: Vec<u8>,
}

/// Length of a Kyber768 public key.
pub const KYBER_PUBLIC_LEN: usize = 1184;
/// Length of a Kyber768 secret key.
pub const KYBER_SECRET_LEN: usize = 2400;
/// Length of a Kyber768 ciphertext.
pub const KYBER_CIPHERTEXT_LEN: usize = 1088;

/// `Liberty-Hybrid-v1`: HKDF info of the hybrid combination.
pub open spec fn hybrid_info() -> Seq<u8> {
    seq![76u8, 105, 98, 101, 114, 116, 121, 45, 72, 121, 98, 114, 105, 100, 45, 118, 49]
}

/// `Liberty-PQ-Session`: HKDF info of the session keys.
pub open spec fn pq_session_info() -> Seq<u8> {
    seq![76u8, 105, 98, 101, 114, 116, 121, 45, 80, 81, 45, 83, 101, 115, 115, 105, 111, 110]
}

/// The hybrid secret of a classical and a post-quantum shared secret.
pub open spec fn hybrid_secret(classical: Seq<u8>, pq: Seq<u8>) -> Seq<u8> {
    hkdf_sha256(None, classical + pq, hybrid_info(), 32)
}

/// The hybrid key exchange.
pub struct HybridKeyExchange;

impl HybridKeyExchange {
    /// A fresh Kyber768 key pair (1184-byte public and 2400-byte secret key).
    pub fn generate_pq_keypair() -> (r: PqKeyPair)
        ensures
            r.public@.len() == KYBER_PUBLIC_LEN,
            r.secret@.len() == KYBER_SECRET_LEN,
    {
        pq_keypair()
    }

    /// A fresh X25519 key pair, a fresh Kyber768 key pair, and the hybrid public key of both.
    pub fn generate_hybrid_public() -> (r: (EphemeralKeyPair, PqKeyPair, PqPublicKey))
        ensures
            r.2.classical@ == x25519_base(r.0@),
            r.2.pq@ == r.1.public@,
            r.1.public@.len() == KYBER_PUBLIC_LEN,
            r.1.secret@.len() == KYBER_SECRET_LEN,
    {
        let classical = EphemeralKeyPair::generate();
        let pq = pq_keypair();
        let pk = PqPublicKey { classical: classical.public_bytes(), pq: bytes_to_vec(pq.public.as_slice()) };
        (classical, pq, pk)
    }

    /// Encapsulates to `their_pk` (whose Kyber key must have the Kyber768 length): a fresh
    /// X25519 secret `e` and a fresh Kyber shared secret `k` with its ciphertext; the result is
    /// the hybrid secret of DH(e, their X25519 key) and `k`, our classical public key (with an
    /// empty Kyber part) and the ciphertext.
    pub fn encapsulate(their_pk: &PqPublicKey) -> (r: (PqSharedSecret, PqPublicKey, Vec<u8>))
        requires
            their_pk.pq@.len() == KYBER_PUBLIC_LEN,
        ensures
            exists|e: Seq<u8>, k: Seq<u8>|
                e.len() == 32 && k.len() == 32 && r.1.classical@ == x25519_base(e) && r.0.bytes@
                    == #[trigger] hybrid_secret(x25519_shared(e, their_pk.classical@), k),
            r.1.pq@.len() == 0,
            r.2@.len() == KYBER_CIPHERTEXT_LEN,
    {
        let our_classical = EphemeralKeyPair::generate();
        let classical_ss = our_classical.diffie_hellman(&their_pk.classical);
        let (pq_ss, ct) = pq_encapsulate(their_pk.pq.as_slice());
        let our_pk = PqPublicKey { classical: our_classical.public_bytes(), pq: Vec::new() };
        let ss = combine(classical_ss.as_slice(), pq_ss.as_slice());
        (ss, our_pk, ct)
    }

    /// Decapsulates: the hybrid secret of DH(our X25519 secret, their classical key) and the
    /// Kyber768 decapsulation of `pq_ciphertext` (whose length, like the secret key's, must be
    /// Kyber768's). When `their_classical_pk` belongs to secret `e`, the classical part equals
    /// DH(e, our X25519 public key), as the encapsulating side computed it.
    pub fn decapsulate(
        our_classical: &EphemeralKeyPair,
        our_pq: &PqKeyPair,
        their_classical_pk: &[u8; 32],
        pq_ciphertext: &[u8],
    ) -> (r: PqSharedSecret)
        requires
            our_pq.secret@.len() == KYBER_SECRET_LEN,
            pq_ciphertext@.len() == KYBER_CIPHERTEXT_LEN,
        ensures
            r.bytes@ == hybrid_secret(
                x25519_shared(our_classical@, their_classical_pk@),
                kyber768_decapsulate(our_pq.secret@, pq_ciphertext@),
            ),
            forall|e: Seq<u8>|
                e.len() == 32 && their_classical_pk@ == #[trigger] x25519_base(e) ==> r.bytes@ == hybrid_secret(
                    x25519_shared(e, x25519_base(our_classical@)),
                    kyber768_decapsulate(our_pq.secret@, pq_ciphertext@),
                ),
    {
        let classical_ss = our_classical.diffie_hellman(their_classical_pk);
        let pq_ss = pq_decapsulate(our_pq.secret.as_slice(), pq_ciphertext);
        combine(classical_ss.as_slice(), pq_ss.as_slice())
    }

    /// Session keys from a hybrid secret: 96 HKDF bytes split as in X3DH, send and receive
    /// exchanged between initiator and responder.
    pub fn to_session_keys(ss: &PqSharedSecret, initiator: bool) -> (r: SessionKeys)
        ensures
            session_keys_view(r) == keys_from_okm(hkdf_sha256(None, ss.bytes@, pq_session_info(), 96), initiator),
    {
        let info: [u8; 18] = [76, 105, 98, 101, 114, 116, 121, 45, 80, 81, 45, 83, 101, 115, 115, 105, 111, 110];
        assert(info@ =~= pq_session_info());
        let okm = hkdf_sha256_expand(None, ss.bytes.as_slice(), info.as_slice(), 96);
        let k1 = to_array32(&okm.as_slice()[0..32]);
        let k2 = to_array32(&okm.as_slice()[32..64]);
        let root = to_array32(&okm.as_slice()[64..96]);
        if initiator {
            SessionKeys { send_key: k1, recv_key: k2, chain_key: root }
        } else {
            SessionKeys { send_key: k2, recv_key: k1, chain_key: root }
        }
    }
}

fn combine(classical: &[u8], pq: &[u8]) -> (r: PqSharedSecret)
    ensures
        r.bytes@ == hybrid_secret(classical@, pq@),
{
    let mut ikm: Vec<u8> = Vec::new();
    append_bytes(&mut ikm, classical);
    append_bytes(&mut ikm, pq);
    let info: [u8; 17] = [76, 105, 98, 101, 114, 116, 121, 45, 72, 121, 98, 114, 105, 100, 45, 118, 49];
    assert(info@ =~= hybrid_info());
    let okm = hkdf_sha256_expand(None, ikm.as_slice(), info.as_slice(), 32);
    PqSharedSecret { bytes: to_array32(okm.as_slice()) }
}

fn pq_keypair() -> (r: PqKeyPair)
    ensures
        r.public@.len() == KYBER_PUBLIC_LEN,
        r.secret@.len() == KYBER_SECRET_LEN,
{
    let (public, secret) = kyber768_keypair();
    PqKeyPair { public, secret }
}

fn pq_encapsulate(pk_bytes: &[u8]) -> (r: (Vec<u8>, Vec<u8>))
    requires
        pk_bytes@.len() == KYBER_PUBLIC_LEN,
    ensures
        r.0@.len() == 32,
        r.1@.len() == KYBER_CIPHERTEXT_LEN,
{
    kyber768_encapsulate(pk_bytes)
}

fn pq_decapsulate(sk_bytes: &[u8], ct_bytes: &[u8]) -> (r: Vec<u8>)
    requires
        sk_bytes@.len() == KYBER_SECRET_LEN,
        ct_bytes@.len() == KYBER_CIPHERTEXT_LEN,
    ensures
        r@ == kyber768_decapsulate(sk_bytes@, ct_bytes@),
{
    kyber768_decapsulate_bytes(sk_bytes, ct_bytes)
}

} // verus!
