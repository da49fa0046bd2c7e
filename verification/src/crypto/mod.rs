//! Cryptographic building blocks of the messenger.
use vstd::prelude::*;

pub mod primitives;
pub mod aead;
pub mod keys;
pub mod x3dh;
pub mod ratchet;
pub mod session;
pub mod disappearing;
pub mod mls;
pub mod pq;
pub mod sealed_sender;
pub mod media;

pub use aead::{available_suites, decrypt, decrypt_auto, encrypt, encrypt_with, AeadError, CipherSuite};
pub use disappearing::{sweep_expired, DisappearMode, EphemeralMessage};
pub use keys::{DiffieHellman, EphemeralKeyPair, IdentityKeyPair, PublicIdentity, SessionKeys};
pub use media::{MediaAttachment, MediaCrypto};
pub use mls::{Commit, KeyPackage, MlsGroup, MlsMessage, Welcome};
pub use pq::{HybridKeyExchange, PqKeyPair, PqPublicKey, PqSharedSecret};
pub use ratchet::{MessageHeader, RatchetSession};
pub use sealed_sender::{SealedEnvelope, SealedSender, SealedSenderKeys, SealedSenderSecret, UnsealedSender};
pub use session::{EncryptedMessage, SessionManager};
pub use x3dh::{PreKeyBundle, X3DH};

verus! {

/// Secret key material held as bytes.
#[derive(Clone)]
pub struct SecretBytes(Vec<u8>);

impl View for SecretBytes {
    type V = Seq<u8>;

    closed spec fn view(&self) -> Seq<u8> {
        self.0@
    }
}

impl SecretBytes {
    /// Wraps `data`.
    pub fn new(data: Vec<u8>) -> (r: Self)
        ensures
            r@ == data@,
    {
        SecretBytes(data)
    }

    /// The bytes.
    pub fn as_slice(&self) -> (r: &[u8])
        ensures
            r@ == self@,
    {
        self.0.as_slice()
    }

    /// The number of bytes.
    pub fn len(&self) -> (r: usize)
        ensures
            r == self@.len(),
    {
        self.0.len()
    }

    /// Whether there are no bytes.
    pub fn is_empty(&self) -> (r: bool)
        ensures
            r == (self@.len() == 0),
    {
        self.0.len() == 0
    }
}

impl From<Vec<u8>> for SecretBytes {
    fn from(v: Vec<u8>) -> (r: Self)
        ensures
            r@ == v@,
    {
        SecretBytes(v)
    }
}

impl vstd::std_specs::convert::FromSpecImpl<Vec<u8>> for SecretBytes {
    open spec fn obeys_from_spec() -> bool {
        true
    }

    closed spec fn from_spec(v: Vec<u8>) -> SecretBytes {
        SecretBytes(v)
    }
}

} // verus!
