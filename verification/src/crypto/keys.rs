//! Key pairs: Ed25519 signing plus an independent X25519 key for Diffie-Hellman.
use vstd::prelude::*;
use crate::crypto::SecretBytes;
use crate::crypto::primitives::{
    ed25519_public, ed25519_public_of, ed25519_sign, ed25519_sign_msg, ed25519_verify,
    ed25519_verify_sig, constant_time_eq, os_random_32, x25519_base, x25519_diffie_hellman,
    x25519_public_of, x25519_shared,
};

verus! {

/// A long-term identity: an Ed25519 signing key and an independent X25519 key.
/// Its view is the pair of secrets (Ed25519, X25519); the public keys follow from them.
pub struct IdentityKeyPair {
    signing: [u8; 32],
    verifying: [u8; 32],
    dh_secret: [u8; 32],
    dh_public: [u8; 32],
}

impl View for IdentityKeyPair {
    type V = (Seq<u8>, Seq<u8>);

    closed spec fn view(&self) -> (Seq<u8>, Seq<u8>) {
        (self.signing@, self.dh_secret@)
    }
}

impl IdentityKeyPair {
    #[verifier::type_invariant]
    spec fn keys_match(self) -> bool {
        &&& self.verifying@ == ed25519_public(self.signing@)
        &&& self.dh_public@ == x25519_base(self.dh_secret@)
    }

    /// A fresh identity from two independent 32-byte draws of the operating system generator.
    pub fn generate() -> (r: Self)
        ensures
            r@.0.len() == 32,
            r@.1.len() == 32,
    {
        let ed = os_random_32();
        let x = os_random_32();
        Self::from_bytes(ed, x)
    }

    /// The identity with these Ed25519 and X25519 secrets.
    pub fn from_bytes(ed_secret: [u8; 32], x25519_secret: [u8; 32]) -> (r: Self)
        ensures
            r@ == (ed_secret@, x25519_secret@),
    {
        let verifying = ed25519_public_of(&ed_secret);
        let dh_public = x25519_public_of(&x25519_secret);
        IdentityKeyPair { signing: ed_secret, verifying, dh_secret: x25519_secret, dh_public }
    }

    /// The Ed25519 public key.
    pub fn public_key_bytes(&self) -> (r: [u8; 32])
        ensures
            r@ == ed25519_public(self@.0),
    {
        proof { use_type_invariant(self); }
        self.verifying
    }

    /// The Ed25519 secret key.
    pub fn secret_bytes(&self) -> (r: [u8; 32])
        ensures
            r@ == self@.0,
    {
        self.signing
    }

    /// The X25519 public key.
    pub fn dh_public_bytes(&self) -> (r: [u8; 32])
        ensures
            r@ == x25519_base(self@.1),
    {
        proof { use_type_invariant(self); }
        self.dh_public
    }

    /// The X25519 secret key.
    pub fn dh_secret_bytes(&self) -> (r: [u8; 32])
        ensures
            r@ == self@.1,
    {
        self.dh_secret
    }

    /// X25519 shared secret with `their_public`; a peer holding the secret of `their_public`
    /// computes the same secret from this identity's X25519 public key.
    pub fn diffie_hellman(&self, their_public: &[u8; 32]) -> (r: SecretBytes)
        ensures
            r@ == x25519_shared(self@.1, their_public@),
            forall|other: Seq<u8>|
                other.len() == 32 && their_public@ == #[trigger] x25519_base(other) ==> r@ == x25519_shared(
                    other,
                    x25519_base(self@.1),
                ),
    {
        let shared = x25519_diffie_hellman(&self.dh_secret, their_public);
        SecretBytes::new(crate::bytes::bytes_to_vec(shared.as_slice()))
    }

    /// Ed25519 signature of `msg`.
    pub fn sign(&self, msg: &[u8]) -> (r: [u8; 64])
        ensures
            r@ == ed25519_sign(self@.0, msg@),
    {
        ed25519_sign_msg(&self.signing, msg)
    }

    /// Whether `sig` is a valid signature of `msg` under the Ed25519 public key `public`;
    /// a signature made by the matching secret key is accepted.
    pub fn verify(public: &[u8; 32], msg: &[u8], sig: &[u8; 64]) -> (r: bool)
        ensures
            r == ed25519_verify(public@, msg@, sig@),
            forall|sk: Seq<u8>|
                sk.len() == 32 && public@ == ed25519_public(sk) && sig@ == #[trigger] ed25519_sign(sk, msg@)
                    ==> r,
    {
        ed25519_verify_sig(public, msg, sig)
    }
}

/// An X25519 key pair. Its view is the secret; the public key is `x25519_base` of it.
pub struct EphemeralKeyPair {
    secret: [u8; 32],
    public: [u8; 32],
}

impl View for EphemeralKeyPair {
    type V = Seq<u8>;

    closed spec fn view(&self) -> Seq<u8> {
        self.secret@
    }
}

impl EphemeralKeyPair {
    #[verifier::type_invariant]
    spec fn keys_match(self) -> bool {
        self.public@ == x25519_base(self.secret@)
    }

    /// A fresh key pair from 32 bytes of the operating system generator.
    pub fn generate() -> (r: Self)
        ensures
            r@.len() == 32,
    {
        let secret = os_random_32();
        Self::from_secret(secret)
    }

    /// The key pair with this secret.
    pub fn from_secret(bytes: [u8; 32]) -> (r: Self)
        ensures
            r@ == bytes@,
    {
        let public = x25519_public_of(&bytes);
        EphemeralKeyPair { secret: bytes, public }
    }

    /// The public key.
    pub fn public_bytes(&self) -> (r: [u8; 32])
        ensures
            r@ == x25519_base(self@),
    {
        proof { use_type_invariant(self); }
        self.public
    }

    /// The secret key.
    pub fn secret_bytes(&self) -> (r: [u8; 32])
        ensures
            r@ == self@,
            r@.len() == 32,
    {
        self.secret
    }

    /// X25519 shared secret with `their_public`; a peer holding the secret of `their_public`
    /// computes the same secret from this key pair's public key.
    pub fn diffie_hellman(&self, their_public: &[u8; 32]) -> (r: SecretBytes)
        ensures
            r@ == x25519_shared(self@, their_public@),
            forall|other: Seq<u8>|
                other.len() == 32 && their_public@ == #[trigger] x25519_base(other) ==> r@ == x25519_shared(
                    other,
                    x25519_base(self@),
                ),
    {
        let shared = x25519_diffie_hellman(&self.secret, their_public);
        SecretBytes::new(crate::bytes::bytes_to_vec(shared.as_slice()))
    }
}

/// Pairwise Diffie-Hellman helpers.
pub struct DiffieHellman;

impl DiffieHellman {
    /// The secret `alice` shares with the holder of `bob_public`.
    pub fn pairwise_shared(alice: &EphemeralKeyPair, bob_public: &[u8; 32]) -> (r: SecretBytes)
        ensures
            r@ == x25519_shared(alice@, bob_public@),
            forall|other: Seq<u8>|
                other.len() == 32 && bob_public@ == #[trigger] x25519_base(other) ==> r@ == x25519_shared(
                    other,
                    x25519_base(alice@),
                ),
    {
        alice.diffie_hellman(bob_public)
    }

    /// Whether two secrets are equal, compared in constant time.
    pub fn secrets_match(a: &SecretBytes, b: &SecretBytes) -> (r: bool)
        ensures
            r == (a@ == b@),
    {
        if a.len() != b.len() {
            return false;
        }
        constant_time_eq(a.as_slice(), b.as_slice())
    }
}

/// The three keys a session starts from.
#[derive(Clone, Debug)]
pub struct SessionKeys {
    pub send_key: [u8; 32],
    pub recv_key: [u8; 32],
    pub chain_key: [u8; 32],
}

/// The public half of an identity.
#[derive(Clone, Debug)]
pub struct PublicIdentity {
    pub ed25519: [u8; 32],
    pub x25519: [u8; 32],
}

} // verus!
