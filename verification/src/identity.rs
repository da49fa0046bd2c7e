//! Identity: a key pair and the peer id derived from it.
use vstd::prelude::*;
use vstd::string::*;
use crate::bytes::{append_bytes, hex_encode, hex_encode_spec, to_array32};
use crate::crypto::keys::IdentityKeyPair;
use crate::crypto::primitives::{ed25519_public, sha256, sha256_digest};

verus! {

/// Why an identity could not be read.
#[derive(Debug, Clone, Copy, PartialEq, Eq, Structural)]
pub enum IdentityError {
    /// The key material is too short.
    InvalidKey,
}

/// `liberty-peer-v1`: the domain prefix of peer-id hashing.
pub open spec fn peer_prefix() -> Seq<u8> {
    seq![108u8, 105, 98, 101, 114, 116, 121, 45, 112, 101, 101, 114, 45, 118, 49]
}

/// The peer id of an Ed25519 public key: `liberty:` and the hex of the first 16 bytes of
/// SHA-256 over the prefix and the key.
pub open spec fn peer_id_spec(public: Seq<u8>) -> Seq<char> {
    seq!['l', 'i', 'b', 'e', 'r', 't', 'y', ':'] + hex_encode_spec(sha256(peer_prefix() + public).subrange(0, 16))
}

/// The secrets read from key material: the first 32 bytes are the Ed25519 secret; the next 32
/// the X25519 secret when present, else the Ed25519 secret again.
pub open spec fn key_material_secrets(data: Seq<u8>) -> (Seq<u8>, Seq<u8>) {
    (data.subrange(0, 32), if data.len() >= 64 { data.subrange(32, 64) } else { data.subrange(0, 32) })
}

/// An identity: its key pair and its peer id.
pub struct Identity {
    app_keypair: IdentityKeyPair,
    peer_id: String,
}

/// The Ed25519 secret of an identity's view.
pub open spec fn ed_secret_of(v: ((Seq<u8>, Seq<u8>), Seq<char>)) -> Seq<u8> {
    let k = v.0;
    k.0
}

/// The X25519 secret of an identity's view.
pub open spec fn dh_secret_of(v: ((Seq<u8>, Seq<u8>), Seq<char>)) -> Seq<u8> {
    let k = v.0;
    k.1
}

impl View for Identity {
    type V = ((Seq<u8>, Seq<u8>), Seq<char>);

    closed spec fn view(&self) -> ((Seq<u8>, Seq<u8>), Seq<char>) {
        (self.app_keypair@, self.peer_id@)
    }
}

/// The peer id of an Ed25519 public key.
pub fn derive_peer_id(public: &[u8; 32]) -> (r: String)
    ensures
        r@ == peer_id_spec(public@),
{
    let prefix: [u8; 15] = [108, 105, 98, 101, 114, 116, 121, 45, 112, 101, 101, 114, 45, 118, 49];
    assert(prefix@ =~= peer_prefix());
    let mut input: Vec<u8> = Vec::new();
    append_bytes(&mut input, prefix.as_slice());
    append_bytes(&mut input, public.as_slice());
    let hash = sha256_digest(input.as_slice());
    let hex = hex_encode(&hash.as_slice()[0..16]);
    let mut s = String::from_str("liberty:");
    proof { reveal_strlit("liberty:"); }
    s.append(hex.as_str());
    assert(s@ =~= peer_id_spec(public@));
    s
}

/// An identity's view is consistent: 32-byte secrets and the peer id of the Ed25519 public key.
pub open spec fn identity_consistent(v: ((Seq<u8>, Seq<u8>), Seq<char>)) -> bool {
    &&& ed_secret_of(v).len() == 32
    &&& dh_secret_of(v).len() == 32
    &&& v.1 == peer_id_spec(ed25519_public(ed_secret_of(v)))
}

impl Identity {
    #[verifier::type_invariant]
    spec fn consistent(self) -> bool {
        identity_consistent(self@)
    }

    /// A fresh random identity.
    pub fn generate() -> (r: Self)
        ensures
            ed_secret_of(r@).len() == 32,
            dh_secret_of(r@).len() == 32,
            r@.1 == peer_id_spec(ed25519_public(ed_secret_of(r@))),
    {
        let app_keypair = IdentityKeyPair::generate();
        let peer_id = derive_peer_id(&app_keypair.public_key_bytes());
        Identity { app_keypair, peer_id }
    }

    /// The identity stored in key material (see `key_material_secrets`); `InvalidKey` when
    /// there are fewer than 32 bytes.
    pub fn load_bytes(data: &[u8]) -> (r: Result<Self, IdentityError>)
        ensures
            data@.len() < 32 ==> r == Err::<Identity, IdentityError>(IdentityError::InvalidKey),
            data@.len() >= 32 ==> (r matches Ok(id) && id@.0 == key_material_secrets(data@) && id@.1
                == peer_id_spec(ed25519_public(ed_secret_of(id@)))),
    {
        if data.len() < 32 {
            return Err(IdentityError::InvalidKey);
        }
        let ed = to_array32(&data[0..32]);
        let x = if data.len() >= 64 {
            to_array32(&data[32..64])
        } else {
            ed
        };
        let app_keypair = IdentityKeyPair::from_bytes(ed, x);
        let peer_id = derive_peer_id(&app_keypair.public_key_bytes());
        Ok(Identity { app_keypair, peer_id })
    }

    /// The key material to store: the Ed25519 secret followed by the X25519 secret.
    pub fn key_bytes(&self) -> (r: Vec<u8>)
        ensures
            identity_consistent(self@),
            r@ == ed_secret_of(self@) + dh_secret_of(self@),
            r@.len() == 64,
    {
        proof { use_type_invariant(self); }
        let secret = self.app_keypair.secret_bytes();
        let dh = self.app_keypair.dh_secret_bytes();
        let mut blob: Vec<u8> = Vec::new();
        append_bytes(&mut blob, secret.as_slice());
        append_bytes(&mut blob, dh.as_slice());
        blob
    }

    /// The peer id: that of the Ed25519 public key.
    pub fn peer_id(&self) -> (r: &str)
        ensures
            r@ == self@.1,
            identity_consistent(self@),
    {
        proof { use_type_invariant(self); }
        self.peer_id.as_str()
    }

    /// The key pair.
    pub fn keypair(&self) -> (r: &IdentityKeyPair)
        ensures
            r@ == self@.0,
    {
        &self.app_keypair
    }

    /// The Ed25519 public key.
    pub fn public_key_bytes(&self) -> (r: [u8; 32])
        ensures
            r@ == ed25519_public(ed_secret_of(self@)),
    {
        self.app_keypair.public_key_bytes()
    }
}

/// An identity read back from the key material of a consistent identity is that identity:
/// the same secrets, hence the same public keys, and the same peer id.
pub proof fn law_identity_reload(v: ((Seq<u8>, Seq<u8>), Seq<char>))
    requires
        identity_consistent(v),
    ensures
        key_material_secrets(ed_secret_of(v) + dh_secret_of(v)) == v.0,
        peer_id_spec(ed25519_public(key_material_secrets(ed_secret_of(v) + dh_secret_of(v)).0)) == v.1,
{
    law_identity_storage_roundtrip(ed_secret_of(v), dh_secret_of(v));
}

/// Storing an identity and reading it back gives the same key pair: the stored material is
/// 64 bytes whose two halves are the Ed25519 and X25519 secrets.
pub proof fn law_identity_storage_roundtrip(ed: Seq<u8>, x: Seq<u8>)
    requires
        ed.len() == 32,
        x.len() == 32,
    ensures
        key_material_secrets(ed + x) == (ed, x),
{
    assert((ed + x).subrange(0, 32) =~= ed);
    assert((ed + x).subrange(32, 64) =~= x);
}

} // verus!
