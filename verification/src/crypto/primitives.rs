//! The cryptographic primitives this library takes from outside crates.
//!
//! Each function here makes one outside call and states what is believed of it;
//! nothing in this file is proved. A result that takes pages to define is given a
//! name (an uninterpreted spec function of the call's arguments).
use vstd::prelude::*;
use aes_gcm::aead::{Aead, KeyInit, Payload};
use rand::RngCore;
use sha2::Digest;
use ed25519_dalek::{Signer, Verifier};
use subtle::ConstantTimeEq;
use pqcrypto_traits::kem::{Ciphertext as _, PublicKey as _, SecretKey as _, SharedSecret as _};

verus! {

/// AES-256-GCM refuses a plaintext or associated data longer than this many bytes (2^36).
pub const AES_GCM_MAX_LEN: u64 = 68719476736;

/// ChaCha20-Poly1305 refuses a plaintext of this many whole 64-byte blocks or more.
pub const CHACHA_MAX_BLOCKS: u64 = 4294967295;

/// Length of an AEAD authentication tag in bytes (both ciphers).
pub const TAG_LEN: usize = 16;

/// AES-256-GCM ciphertext-and-tag of `msg` under `key`, `nonce` and `aad`.
pub uninterp spec fn aes_gcm_seal(key: Seq<u8>, nonce: Seq<u8>, msg: Seq<u8>, aad: Seq<u8>) -> Seq<u8>;

/// AES-256-GCM opening of ciphertext-and-tag `ct`: the plaintext, or `None` when it is not authentic.
pub uninterp spec fn aes_gcm_open(key: Seq<u8>, nonce: Seq<u8>, ct: Seq<u8>, aad: Seq<u8>) -> Option<Seq<u8>>;

/// ChaCha20-Poly1305 ciphertext-and-tag of `msg` under `key`, `nonce` and `aad`.
pub uninterp spec fn chacha_seal(key: Seq<u8>, nonce: Seq<u8>, msg: Seq<u8>, aad: Seq<u8>) -> Seq<u8>;

/// ChaCha20-Poly1305 opening of ciphertext-and-tag `ct`.
pub uninterp spec fn chacha_open(key: Seq<u8>, nonce: Seq<u8>, ct: Seq<u8>, aad: Seq<u8>) -> Option<Seq<u8>>;

/// HKDF-SHA256 output of `len` bytes: extract with `salt` (all zeros when `None`), expand with `info`.
pub uninterp spec fn hkdf_sha256(salt: Option<Seq<u8>>, ikm: Seq<u8>, info: Seq<u8>, len: nat) -> Seq<u8>;

/// SHA-256 digest of `data`.
pub uninterp spec fn sha256(data: Seq<u8>) -> Seq<u8>;

/// X25519 public key of a secret scalar (clamped multiplication of the base point).
pub uninterp spec fn x25519_base(secret: Seq<u8>) -> Seq<u8>;

/// X25519 shared secret of a secret scalar and a peer's public key.
pub uninterp spec fn x25519_shared(secret: Seq<u8>, their_public: Seq<u8>) -> Seq<u8>;

/// Ed25519 public key of a 32-byte secret key.
pub uninterp spec fn ed25519_public(secret: Seq<u8>) -> Seq<u8>;

/// Ed25519 signature of `msg` by a 32-byte secret key.
pub uninterp spec fn ed25519_sign(secret: Seq<u8>, msg: Seq<u8>) -> Seq<u8>;

/// Whether `sig` is an acceptable Ed25519 signature of `msg` under public key `public`.
pub uninterp spec fn ed25519_verify(public: Seq<u8>, msg: Seq<u8>, sig: Seq<u8>) -> bool;

/// Kyber768 shared secret that secret key `sk` recovers from ciphertext `ct`.
pub uninterp spec fn kyber768_decapsulate(sk: Seq<u8>, ct: Seq<u8>) -> Seq<u8>;

/// Views an optional byte vector as an optional byte sequence.
pub open spec fn opt_bytes(o: Option<Vec<u8>>) -> Option<Seq<u8>> {
    match o {
        Some(v) => Some(v@),
        None => None,
    }
}

/// `n` bytes from the thread-local generator of `rand` (`thread_rng().fill_bytes`).
/// Nothing is stated of their values.
#[verifier::external_body]
pub(crate) fn thread_random_bytes(n: usize) -> (r: Vec<u8>)
    ensures
        r@.len() == n,
{
    let mut v = vec![0u8; n];
    rand::thread_rng().fill_bytes(&mut v);
    v
}

/// 32 bytes from the operating system generator (`rand::rngs::OsRng::fill_bytes`).
/// Nothing is stated of their values.
#[verifier::external_body]
pub(crate) fn os_random_32() -> (r: [u8; 32])
{
    let mut b = [0u8; 32];
    rand::rngs::OsRng.fill_bytes(&mut b);
    b
}

/// `aes_gcm::Aes256Gcm::encrypt`: fails exactly when the message or the associated data is
/// longer than 2^36 bytes (as the crate's source checks); else gives the named ciphertext,
/// 16 bytes longer than the message.
#[verifier::external_body]
pub(crate) fn aes_gcm_encrypt(key: &[u8; 32], nonce: &[u8; 12], msg: &[u8], aad: &[u8]) -> (r: Option<Vec<u8>>)
    ensures
        r is Some <==> (msg@.len() <= AES_GCM_MAX_LEN && aad@.len() <= AES_GCM_MAX_LEN),
        r matches Some(c) ==> c@ == aes_gcm_seal(key@, nonce@, msg@, aad@),
        r matches Some(c) ==> c@.len() == msg@.len() + 16,
{
    let cipher = aes_gcm::Aes256Gcm::new(aes_gcm::Key::<aes_gcm::Aes256Gcm>::from_slice(key));
    cipher.encrypt(aes_gcm::Nonce::from_slice(nonce), Payload { msg, aad }).ok()
}

/// `aes_gcm::Aes256Gcm::decrypt`: gives the named opening; input shorter than the 16-byte tag
/// is refused; a ciphertext that this key, nonce and associated data sealed opens to its message.
#[verifier::external_body]
pub(crate) fn aes_gcm_decrypt(key: &[u8; 32], nonce: &[u8; 12], ct: &[u8], aad: &[u8]) -> (r: Option<Vec<u8>>)
    ensures
        opt_bytes(r) == aes_gcm_open(key@, nonce@, ct@, aad@),
        ct@.len() < 16 ==> r is None,
        forall|m: Seq<u8>|
            m.len() <= AES_GCM_MAX_LEN && aad@.len() <= AES_GCM_MAX_LEN && ct@ == #[trigger] aes_gcm_seal(
                key@,
                nonce@,
                m,
                aad@,
            ) ==> opt_bytes(r) == Some(m),
{
    let cipher = aes_gcm::Aes256Gcm::new(aes_gcm::Key::<aes_gcm::Aes256Gcm>::from_slice(key));
    cipher.decrypt(aes_gcm::Nonce::from_slice(nonce), Payload { msg: ct, aad }).ok()
}

/// `chacha20poly1305::ChaCha20Poly1305::encrypt`: fails exactly when the message holds
/// 2^32 - 1 whole 64-byte blocks or more (as the crate's source checks); else gives the
/// named ciphertext, 16 bytes longer than the message.
#[verifier::external_body]
pub(crate) fn chacha_encrypt(key: &[u8; 32], nonce: &[u8; 12], msg: &[u8], aad: &[u8]) -> (r: Option<Vec<u8>>)
    ensures
        r is Some <==> msg@.len() / 64 < CHACHA_MAX_BLOCKS,
        r matches Some(c) ==> c@ == chacha_seal(key@, nonce@, msg@, aad@),
        r matches Some(c) ==> c@.len() == msg@.len() + 16,
{
    let cipher = chacha20poly1305::ChaCha20Poly1305::new(chacha20poly1305::Key::from_slice(key));
    cipher.encrypt(chacha20poly1305::Nonce::from_slice(nonce), Payload { msg, aad }).ok()
}

/// `chacha20poly1305::ChaCha20Poly1305::decrypt`: gives the named opening; input shorter than
/// the 16-byte tag is refused; a ciphertext that this key, nonce and associated data sealed
/// opens to its message.
#[verifier::external_body]
pub(crate) fn chacha_decrypt(key: &[u8; 32], nonce: &[u8; 12], ct: &[u8], aad: &[u8]) -> (r: Option<Vec<u8>>)
    ensures
        opt_bytes(r) == chacha_open(key@, nonce@, ct@, aad@),
        ct@.len() < 16 ==> r is None,
        forall|m: Seq<u8>|
            m.len() / 64 < CHACHA_MAX_BLOCKS && ct@ == #[trigger] chacha_seal(key@, nonce@, m, aad@)
                ==> opt_bytes(r) == Some(m),
{
    let cipher = chacha20poly1305::ChaCha20Poly1305::new(chacha20poly1305::Key::from_slice(key));
    cipher.decrypt(chacha20poly1305::Nonce::from_slice(nonce), Payload { msg: ct, aad }).ok()
}

/// `hkdf::Hkdf::<Sha256>::new` then `expand` into `len` bytes; `expand` refuses more than
/// 255 * 32 bytes, which `requires` rules out.
#[verifier::external_body]
pub(crate) fn hkdf_sha256_expand(salt: Option<&[u8]>, ikm: &[u8], info: &[u8], len: usize) -> (r: Vec<u8>)
    requires
        len <= 8160,
    ensures
        r@ == hkdf_sha256(
            match salt {
                Some(s) => Some(s@),
                None => None,
            },
            ikm@,
            info@,
            len as nat,
        ),
        r@.len() == len,
{
    let hk = hkdf::Hkdf::<sha2::Sha256>::new(salt, ikm);
    let mut okm = vec![0u8; len];
    hk.expand(info, &mut okm).unwrap_or(());
    okm
}

/// `sha2::Sha256::digest`: the named 32-byte digest.
#[verifier::external_body]
pub(crate) fn sha256_digest(data: &[u8]) -> (r: [u8; 32])
    ensures
        r@ == sha256(data@),
{
    sha2::Sha256::digest(data).into()
}

/// `x25519_dalek::PublicKey::from(&StaticSecret::from(secret))`: the named public key.
#[verifier::external_body]
pub(crate) fn x25519_public_of(secret: &[u8; 32]) -> (r: [u8; 32])
    ensures
        r@ == x25519_base(secret@),
{
    x25519_dalek::PublicKey::from(&x25519_dalek::StaticSecret::from(*secret)).to_bytes()
}

/// `x25519_dalek::StaticSecret::diffie_hellman`: the named shared secret. Both parties of an
/// exchange compute the same secret: the clamped scalars multiply the base point in either order.
#[verifier::external_body]
pub(crate) fn x25519_diffie_hellman(secret: &[u8; 32], their_public: &[u8; 32]) -> (r: [u8; 32])
    ensures
        r@ == x25519_shared(secret@, their_public@),
        forall|other: Seq<u8>|
            other.len() == 32 && their_public@ == #[trigger] x25519_base(other) ==> r@ == x25519_shared(
                other,
                x25519_base(secret@),
            ),
{
    let s = x25519_dalek::StaticSecret::from(*secret);
    s.diffie_hellman(&x25519_dalek::PublicKey::from(*their_public)).to_bytes()
}

/// `ed25519_dalek::SigningKey::from_bytes(..).verifying_key()`: the named public key.
#[verifier::external_body]
pub(crate) fn ed25519_public_of(secret: &[u8; 32]) -> (r: [u8; 32])
    ensures
        r@ == ed25519_public(secret@),
{
    ed25519_dalek::SigningKey::from_bytes(secret).verifying_key().to_bytes()
}

/// `ed25519_dalek::SigningKey::sign`: the named (deterministic) 64-byte signature.
#[verifier::external_body]
pub(crate) fn ed25519_sign_msg(secret: &[u8; 32], msg: &[u8]) -> (r: [u8; 64])
    ensures
        r@ == ed25519_sign(secret@, msg@),
{
    ed25519_dalek::SigningKey::from_bytes(secret).sign(msg).to_bytes()
}

/// `ed25519_dalek::VerifyingKey::from_bytes` then `verify`: the named verdict (false when the
/// key bytes do not decode). A signature made with the secret key of `public` is accepted.
#[verifier::external_body]
pub(crate) fn ed25519_verify_sig(public: &[u8; 32], msg: &[u8], sig: &[u8; 64]) -> (r: bool)
    ensures
        r == ed25519_verify(public@, msg@, sig@),
        forall|sk: Seq<u8>|
            sk.len() == 32 && public@ == ed25519_public(sk) && sig@ == #[trigger] ed25519_sign(sk, msg@)
                ==> r,
{
    match ed25519_dalek::VerifyingKey::from_bytes(public) {
        Ok(vk) => vk.verify(msg, &ed25519_dalek::Signature::from_bytes(sig)).is_ok(),
        Err(_) => false,
    }
}

/// `subtle::ConstantTimeEq::ct_eq` on byte slices: true exactly when they are equal
/// (false at once when the lengths differ).
#[verifier::external_body]
pub(crate) fn constant_time_eq(a: &[u8], b: &[u8]) -> (r: bool)
    ensures
        r == (a@ == b@),
{
    a.ct_eq(b).into()
}

/// `pqcrypto_kyber::kyber768::keypair`: a fresh (public, secret) pair of 1184 and 2400 bytes.
/// Its values come from the system generator and are not stated.
#[verifier::external_body]
pub(crate) fn kyber768_keypair() -> (r: (Vec<u8>, Vec<u8>))
    ensures
        r.0@.len() == 1184,
        r.1@.len() == 2400,
{
    let (pk, sk) = pqcrypto_kyber::kyber768::keypair();
    (pk.as_bytes().to_vec(), sk.as_bytes().to_vec())
}

/// `pqcrypto_kyber::kyber768::encapsulate` to a 1184-byte public key: a fresh
/// (shared secret, ciphertext) pair of 32 and 1088 bytes, drawn at random and not stated.
#[verifier::external_body]
pub(crate) fn kyber768_encapsulate(pk: &[u8]) -> (r: (Vec<u8>, Vec<u8>))
    requires
        pk@.len() == 1184,
    ensures
        r.0@.len() == 32,
        r.1@.len() == 1088,
{
    let pk = pqcrypto_kyber::kyber768::PublicKey::from_bytes(pk).unwrap();
    let (ss, ct) = pqcrypto_kyber::kyber768::encapsulate(&pk);
    (ss.as_bytes().to_vec(), ct.as_bytes().to_vec())
}

/// `pqcrypto_kyber::kyber768::decapsulate`: the named 32-byte shared secret. The key and
/// ciphertext lengths that `from_bytes` accepts are required.
#[verifier::external_body]
pub(crate) fn kyber768_decapsulate_bytes(sk: &[u8], ct: &[u8]) -> (r: Vec<u8>)
    requires
        sk@.len() == 2400,
        ct@.len() == 1088,
    ensures
        r@ == kyber768_decapsulate(sk@, ct@),
        r@.len() == 32,
{
    let sk = pqcrypto_kyber::kyber768::SecretKey::from_bytes(sk).unwrap();
    let ct = pqcrypto_kyber::kyber768::Ciphertext::from_bytes(ct).unwrap();
    pqcrypto_kyber::kyber768::decapsulate(&ct, &sk).as_bytes().to_vec()
}

} // verus!
