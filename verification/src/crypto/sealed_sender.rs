//! Sealed sender: hides the sender's identity from transport observers.
use vstd::prelude::*;
use vstd::string::*;
use crate::bytes::{bytes_to_vec, hex_decode, hex_decode_spec, hex_encode, hex_encode_spec, lemma_hex_roundtrip, to_array32};
use crate::crypto::aead::{
    bytes_result, decrypt, decrypt_auto_spec, encrypt, is_sealed, seal_accepts, AeadError, CipherSuite,
};
use crate::crypto::keys::{EphemeralKeyPair, IdentityKeyPair};
use crate::crypto::primitives::{ed25519_public, ed25519_sign, hkdf_sha256, hkdf_sha256_expand, x25519_base, x25519_shared};

verus! {

/// JSON text (`serde_json::to_vec`) of an object with string members `k1: v1` and `k2: v2`.
pub uninterp spec fn json_object2(k1: Seq<char>, v1: Seq<char>, k2: Seq<char>, v2: Seq<char>) -> Seq<u8>;

/// `bytes` parsed as JSON: `None` when they are not JSON, else the members `k1` and `k2` when
/// they are strings (`None` for a member that is missing or not a string).
pub uninterp spec fn json_string_members(bytes: Seq<u8>, k1: Seq<char>, k2: Seq<char>) -> Option<
    (Option<Seq<char>>, Option<Seq<char>>),
>;

/// `serde_json::to_vec` of the object `{k1: v1, k2: v2}` (string members): the named text.
/// Writing a JSON value with string keys and string members into a vector does not fail. The
/// compact writer adds 13 bytes of quotes, colons, comma and braces, and writes each character
/// of a key or member in at most 6 bytes (a `\u00XX` escape at worst).
#[verifier::external_body]
fn json_object_of(k1: &str, v1: &str, k2: &str, v2: &str) -> (r: Vec<u8>)
    ensures
        r@ == json_object2(k1@, v1@, k2@, v2@),
        r@.len() <= 13 + 6 * (k1@.len() + v1@.len() + k2@.len() + v2@.len()),
{
    let mut m = serde_json::Map::new();
    m.insert(k1.to_string(), serde_json::Value::String(v1.to_string()));
    m.insert(k2.to_string(), serde_json::Value::String(v2.to_string()));
    serde_json::to_vec(&serde_json::Value::Object(m)).unwrap()
}

/// Optional strings as optional texts.
pub open spec fn opt_pair_views(t: (Option<String>, Option<String>)) -> (Option<Seq<char>>, Option<Seq<char>>) {
    (
        match t.0 {
            Some(s) => Some(s@),
            None => None,
        },
        match t.1 {
            Some(s) => Some(s@),
            None => None,
        },
    )
}

/// `serde_json::from_slice::<Value>`, then `get` of `k1` and `k2` and `as_str`: the named
/// result. Text that `json_object_of` wrote for two distinct keys parses back to its members.
#[verifier::external_body]
fn json_string_fields(bytes: &[u8], k1: &str, k2: &str) -> (r: Option<(Option<String>, Option<String>)>)
    ensures
        r is Some ==> json_string_members(bytes@, k1@, k2@) == Some(opt_pair_views(r->0)),
        r is None <==> json_string_members(bytes@, k1@, k2@) is None,
        forall|v1: Seq<char>, v2: Seq<char>|
            k1@ != k2@ && bytes@ == #[trigger] json_object2(k1@, v1, k2@, v2) ==> (r is Some && opt_pair_views(r->0)
                == (Some(v1), Some(v2))),
{
    let v: serde_json::Value = serde_json::from_slice(bytes).ok()?;
    let a = v.get(k1).and_then(serde_json::Value::as_str).map(String::from);
    let b = v.get(k2).and_then(serde_json::Value::as_str).map(String::from);
    Some((a, b))
}

/// A string member, or the empty text when it is missing or not a string.
pub open spec fn text_or_empty(o: Option<Seq<char>>) -> Seq<char> {
    match o {
        Some(t) => t,
        None => Seq::empty(),
    }
}

fn string_or_empty(o: Option<String>) -> (r: String)
    ensures
        r@ == text_or_empty(match o {
            Some(s) => Some(s@),
            None => None,
        }),
{
    match o {
        Some(s) => s,
        None => String::new(),
    }
}

/// Keys a recipient publishes for sealed sender.
#[derive(Clone, Debug)]
pub struct SealedSenderKeys {
    pub public: [u8; 32],
    pub certificate: Vec<u8>,
    pub identity_ed25519: [u8; 32],
}

/// The recipient's sealed-sender secret.
pub struct SealedSenderSecret {
    pub secret: [u8; 32],
}

/// A sealed envelope: the encrypted sender, the ephemeral key it was sealed with, the payload
/// and an optional routing hint.
#[derive(Clone, Debug)]
pub struct SealedEnvelope {
    pub sealed_sender: Vec<u8>,
    pub ephemeral_public: [u8; 32],
    pub payload: Vec<u8>,
    pub recipient_hint: Option<[u8; 8]>,
}

/// The sender recovered from an envelope.
#[derive(Clone, Debug)]
pub struct UnsealedSender {
    pub peer_id: String,
    pub identity_ed25519: [u8; 32],
}

/// `Liberty-SealedSender-v1`: HKDF info of the envelope key.
pub open spec fn sealed_info() -> Seq<u8> {
    seq![76u8, 105, 98, 101, 114, 116, 121, 45, 83, 101, 97, 108, 101, 100, 83, 101, 110, 100, 101, 114, 45, 118, 49]
}

/// `sealed-sender-v1`: associated data of the sealed sender.
pub open spec fn sealed_aad() -> Seq<u8> {
    seq![115u8, 101, 97, 108, 101, 100, 45, 115, 101, 110, 100, 101, 114, 45, 118, 49]
}

/// The envelope key derived from a Diffie-Hellman output.
pub open spec fn sealed_key(shared: Seq<u8>) -> Seq<u8> {
    hkdf_sha256(None, shared, sealed_info(), 32)
}

/// The member name of the sender's peer id.
pub open spec fn peer_id_key() -> Seq<char> {
    seq!['p', 'e', 'e', 'r', '_', 'i', 'd']
}

/// The member name of the sender's Ed25519 key in hex.
pub open spec fn identity_key() -> Seq<char> {
    seq!['i', 'd', 'e', 'n', 't', 'i', 't', 'y', '_', 'e', 'd', '2', '5', '5', '1', '9']
}

/// The plaintext of the sealed sender: a JSON object of the peer id and the hex of the Ed25519 key.
pub open spec fn sender_plaintext(peer_id: Seq<char>, identity: Seq<u8>) -> Seq<u8> {
    json_object2(peer_id_key(), peer_id, identity_key(), hex_encode_spec(identity))
}

/// The identity key read from its hex text: the bytes when they decode to 32 bytes, else zeros.
pub open spec fn identity_from_hex(h: Seq<char>) -> Seq<u8> {
    match hex_decode_spec(vstd::utf8::encode_utf8(h)) {
        Some(b) => if b.len() == 32 {
            b
        } else {
            Seq::new(32, |i: int| 0u8)
        },
        None => Seq::new(32, |i: int| 0u8),
    }
}

/// Sealed sender.
pub struct SealedSender;

fn derive_sealed_key(shared: &[u8]) -> (r: [u8; 32])
    ensures
        r@ == sealed_key(shared@),
{
    let info: [u8; 23] = [76, 105, 98, 101, 114, 116, 121, 45, 83, 101, 97, 108, 101, 100, 83, 101, 110, 100, 101, 114, 45, 118, 49];
    assert(info@ =~= sealed_info());
    let okm = hkdf_sha256_expand(None, shared, info.as_slice(), 32);
    to_array32(okm.as_slice())
}

impl SealedSender {
    /// Fresh sealed-sender keys for `identity`: a random X25519 secret, its public key, and the
    /// identity's signature of that public key as certificate.
    pub fn create_keys(identity: &IdentityKeyPair) -> (r: (SealedSenderSecret, SealedSenderKeys))
        ensures
            r.1.public@ == x25519_base(r.0.secret@),
            r.1.certificate@ == ed25519_sign(identity@.0, r.1.public@),
            r.1.identity_ed25519@ == ed25519_public(identity@.0),
    {
        let eph = EphemeralKeyPair::generate();
        let secret = SealedSenderSecret { secret: eph.secret_bytes() };
        let public = eph.public_bytes();
        let cert = identity.sign(public.as_slice());
        let keys = SealedSenderKeys {
            public,
            certificate: bytes_to_vec(cert.as_slice()),
            identity_ed25519: identity.public_key_bytes(),
        };
        (secret, keys)
    }

    /// Seals the sender's peer id and Ed25519 key for the holder of `recipient_sealed_pk`, under a
    /// fresh ephemeral X25519 secret `e`: the sender JSON is encrypted with the key derived from
    /// DH(e, recipient key); the payload and hint are carried as they are. Fails (with
    /// `Encrypt`) exactly when AES-256-GCM refuses the length of the sender JSON, which never
    /// happens for a peer id of at most 2^33 characters.
    pub fn seal(
        sender_peer_id: &str,
        sender_identity: &IdentityKeyPair,
        recipient_sealed_pk: &[u8; 32],
        payload_ciphertext: Vec<u8>,
        recipient_hint: Option<[u8; 8]>,
    ) -> (r: Result<SealedEnvelope, AeadError>)
        ensures
            r is Ok <==> seal_accepts(
                CipherSuite::Aes256Gcm,
                sender_plaintext(sender_peer_id@, ed25519_public(sender_identity@.0)).len(),
                16,
            ),
            sender_peer_id@.len() <= 0x2_0000_0000 ==> r is Ok,
            r matches Err(e) ==> e == AeadError::Encrypt,
            r matches Ok(env) ==> env.payload@ == payload_ciphertext@ && env.recipient_hint == recipient_hint
                && exists|e: Seq<u8>|
                e.len() == 32 && env.ephemeral_public@ == x25519_base(e) && #[trigger] is_sealed(
                    env.sealed_sender@,
                    CipherSuite::Aes256Gcm,
                    sealed_key(x25519_shared(e, recipient_sealed_pk@)),
                    sender_plaintext(sender_peer_id@, ed25519_public(sender_identity@.0)),
                    sealed_aad(),
                ),
    {
        let eph = EphemeralKeyPair::generate();
        let shared = eph.diffie_hellman(recipient_sealed_pk);
        let key = derive_sealed_key(shared.as_slice());
        let id_hex = hex_encode(sender_identity.public_key_bytes().as_slice());
        let plaintext = json_object_of("peer_id", sender_peer_id, "identity_ed25519", id_hex.as_str());
        proof {
            reveal_strlit("peer_id");
            reveal_strlit("identity_ed25519");
            assert("peer_id"@ =~= peer_id_key());
            assert("identity_ed25519"@ =~= identity_key());
        }
        let aad: [u8; 16] = [115, 101, 97, 108, 101, 100, 45, 115, 101, 110, 100, 101, 114, 45, 118, 49];
        assert(aad@ =~= sealed_aad());
        let sealed = match encrypt(&key, plaintext.as_slice(), aad.as_slice()) {
            Ok(s) => s,
            Err(e) => return Err(e),
        };
        let env = SealedEnvelope {
            sealed_sender: sealed,
            ephemeral_public: eph.public_bytes(),
            payload: payload_ciphertext,
            recipient_hint,
        };
        assert(env.ephemeral_public@ == x25519_base(eph@));
        assert(is_sealed(
            env.sealed_sender@,
            CipherSuite::Aes256Gcm,
            sealed_key(x25519_shared(eph@, recipient_sealed_pk@)),
            sender_plaintext(sender_peer_id@, ed25519_public(sender_identity@.0)),
            sealed_aad(),
        ));
        Ok(env)
    }

    /// Opens an envelope with the recipient's sealed-sender secret: decrypts the sender JSON with
    /// the key derived from DH(secret, envelope key) and returns the sender and the payload. The
    /// error is that of decryption, or `Decrypt` when the plaintext is not JSON; a member that is
    /// missing or not a string reads as empty text. An envelope that
    /// `seal` made for the public key of this secret opens to the sealed peer id, Ed25519 key
    /// and payload.
    pub fn open<'a>(envelope: &'a SealedEnvelope, recipient_secret: &[u8; 32]) -> (r: Result<(UnsealedSender, &'a [u8]), AeadError>)
        ensures
            ({
                let key = sealed_key(x25519_shared(recipient_secret@, envelope.ephemeral_public@));
                match decrypt_auto_spec(key, envelope.sealed_sender@, sealed_aad()) {
                    Err(e) => r matches Err(e2) && e2 == e,
                    Ok(p) => match json_string_members(p, peer_id_key(), identity_key()) {
                        None => r matches Err(e2) && e2 == AeadError::Decrypt,
                        Some(f) => r matches Ok(t) && t.0.peer_id@ == text_or_empty(f.0) && t.0.identity_ed25519@
                            == identity_from_hex(text_or_empty(f.1)) && t.1@ == envelope.payload@,
                    },
                }
            }),
            forall|e: Seq<u8>, peer: Seq<char>, id: Seq<u8>|
                e.len() == 32 && id.len() == 32 && envelope.ephemeral_public@ == x25519_base(e) && #[trigger] is_sealed(
                    envelope.sealed_sender@,
                    CipherSuite::Aes256Gcm,
                    sealed_key(x25519_shared(e, x25519_base(recipient_secret@))),
                    sender_plaintext(peer, id),
                    sealed_aad(),
                ) && seal_accepts(CipherSuite::Aes256Gcm, sender_plaintext(peer, id).len(), sealed_aad().len()) ==> (r matches Ok(t)
                    && t.0.peer_id@ == peer && t.0.identity_ed25519@ == id && t.1@ == envelope.payload@),
    {
        let eph = EphemeralKeyPair::from_secret(*recipient_secret);
        let shared = eph.diffie_hellman(&envelope.ephemeral_public);
        let key = derive_sealed_key(shared.as_slice());
        let aad: [u8; 16] = [115, 101, 97, 108, 101, 100, 45, 115, 101, 110, 100, 101, 114, 45, 118, 49];
        assert(aad@ =~= sealed_aad());
        let plain = match decrypt(&key, envelope.sealed_sender.as_slice(), aad.as_slice()) {
            Ok(p) => p,
            Err(e) => return Err(e),
        };
        proof {
            reveal_strlit("peer_id");
            reveal_strlit("identity_ed25519");
            assert("peer_id"@ =~= peer_id_key());
            assert("identity_ed25519"@ =~= identity_key());
        }
        let (a, b) = match json_string_fields(plain.as_slice(), "peer_id", "identity_ed25519") {
            Some(f) => f,
            None => return Err(AeadError::Decrypt),
        };
        let peer_id = string_or_empty(a);
        let id_hex = string_or_empty(b);
        let zero: [u8; 32] = [0u8; 32];
        assert(zero@ =~= Seq::new(32, |i: int| 0u8));
        let identity_ed25519 = match hex_decode(id_hex.as_str()) {
            Some(bytes) => if bytes.len() == 32 {
                to_array32(bytes.as_slice())
            } else {
                zero
            },
            None => zero,
        };
        proof {
            assert forall|e: Seq<u8>, peer: Seq<char>, id: Seq<u8>|
                e.len() == 32 && id.len() == 32 && envelope.ephemeral_public@ == x25519_base(e) && #[trigger] is_sealed(
                    envelope.sealed_sender@,
                    CipherSuite::Aes256Gcm,
                    sealed_key(x25519_shared(e, x25519_base(recipient_secret@))),
                    sender_plaintext(peer, id),
                    sealed_aad(),
                ) && seal_accepts(CipherSuite::Aes256Gcm, sender_plaintext(peer, id).len(), sealed_aad().len())
                implies peer_id@ == peer && identity_ed25519@ == id by {
                assert(shared@ == x25519_shared(e, x25519_base(recipient_secret@)));
                assert(plain@ == sender_plaintext(peer, id));
                lemma_hex_roundtrip(id);
            }
        }
        Ok((UnsealedSender { peer_id, identity_ed25519 }, envelope.payload.as_slice()))
    }
}

} // verus!
