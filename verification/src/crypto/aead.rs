//! Authenticated encryption (AEAD).
//! Wire format: `[suite:u8][nonce:12][ciphertext||tag]`; a legacy form without the
//! suite byte (`[nonce:12][ciphertext||tag]`, AES-256-GCM) is still read.
use vstd::prelude::*;
use vstd::string::*;
use crate::bytes::{append_bytes, to_array12};
use crate::crypto::primitives::{
    aes_gcm_decrypt, aes_gcm_encrypt, aes_gcm_open, aes_gcm_seal, chacha_decrypt, chacha_encrypt,
    chacha_open, chacha_seal, thread_random_bytes, AES_GCM_MAX_LEN, CHACHA_MAX_BLOCKS,
};

verus! {

/// Length of an AEAD nonce in bytes.
pub const NONCE_LEN: usize = 12;

/// Why an encryption or decryption failed.
#[derive(Debug, Clone, PartialEq, Eq, Structural)]
pub enum AeadError {
    Encrypt,
    Decrypt,
    InvalidLength,
    UnsupportedAlgorithm,
}

impl AeadError {
    /// The human-readable message of this error.
    pub fn to_string(&self) -> (r: String)
        ensures
            r@ == aead_error_message(*self),
    {
        match self {
            AeadError::Encrypt => String::from_str("encryption failed"),
            AeadError::Decrypt => String::from_str("decryption failed (tampered or wrong key)"),
            AeadError::InvalidLength => String::from_str("invalid ciphertext length"),
            AeadError::UnsupportedAlgorithm => String::from_str("unsupported algorithm"),
        }
    }
}

/// The message text of each error.
pub open spec fn aead_error_message(e: AeadError) -> Seq<char> {
    match e {
        AeadError::Encrypt => "encryption failed"@,
        AeadError::Decrypt => "decryption failed (tampered or wrong key)"@,
        AeadError::InvalidLength => "invalid ciphertext length"@,
        AeadError::UnsupportedAlgorithm => "unsupported algorithm"@,
    }
}

/// The AEAD algorithms; AES-256-GCM is the default.
#[derive(Clone, Copy, Debug, PartialEq, Eq, Structural)]
pub enum CipherSuite {
    Aes256Gcm,
    ChaCha20Poly1305,
}

impl Default for CipherSuite {
    fn default() -> (r: Self)
        ensures
            r == CipherSuite::Aes256Gcm,
    {
        CipherSuite::Aes256Gcm
    }
}

/// The byte that identifies a suite on the wire.
pub open spec fn suite_code(s: CipherSuite) -> u8 {
    match s {
        CipherSuite::Aes256Gcm => 1,
        CipherSuite::ChaCha20Poly1305 => 2,
    }
}

/// The suite that a wire byte identifies.
pub open spec fn suite_of_code(v: u8) -> Option<CipherSuite> {
    if v == 1 {
        Some(CipherSuite::Aes256Gcm)
    } else if v == 2 {
        Some(CipherSuite::ChaCha20Poly1305)
    } else {
        None
    }
}

/// Whether a suite encrypts a message and associated data of these lengths.
pub open spec fn seal_accepts(s: CipherSuite, msg_len: nat, aad_len: nat) -> bool {
    match s {
        CipherSuite::Aes256Gcm => msg_len <= AES_GCM_MAX_LEN && aad_len <= AES_GCM_MAX_LEN,
        CipherSuite::ChaCha20Poly1305 => msg_len / 64 < CHACHA_MAX_BLOCKS,
    }
}

/// Ciphertext-and-tag of a suite.
pub open spec fn seal_spec(s: CipherSuite, key: Seq<u8>, nonce: Seq<u8>, msg: Seq<u8>, aad: Seq<u8>) -> Seq<u8> {
    match s {
        CipherSuite::Aes256Gcm => aes_gcm_seal(key, nonce, msg, aad),
        CipherSuite::ChaCha20Poly1305 => chacha_seal(key, nonce, msg, aad),
    }
}

/// Opening of a ciphertext-and-tag by a suite.
pub open spec fn open_spec(s: CipherSuite, key: Seq<u8>, nonce: Seq<u8>, ct: Seq<u8>, aad: Seq<u8>) -> Option<Seq<u8>> {
    match s {
        CipherSuite::Aes256Gcm => aes_gcm_open(key, nonce, ct, aad),
        CipherSuite::ChaCha20Poly1305 => chacha_open(key, nonce, ct, aad),
    }
}

/// The wire frame: suite byte, nonce, ciphertext-and-tag.
pub open spec fn frame(s: CipherSuite, nonce: Seq<u8>, body: Seq<u8>) -> Seq<u8> {
    seq![suite_code(s)] + nonce + body
}

/// `data` is the frame that `encrypt_with(s, key, msg, aad)` produces for the nonce it carries.
pub open spec fn is_sealed(data: Seq<u8>, s: CipherSuite, key: Seq<u8>, msg: Seq<u8>, aad: Seq<u8>) -> bool {
    &&& data.len() > 13
    &&& data == frame(s, data.subrange(1, 13), seal_spec(s, key, data.subrange(1, 13), msg, aad))
}

/// The byte sequence carried by a result.
pub open spec fn bytes_result(r: Result<Vec<u8>, AeadError>) -> Result<Seq<u8>, AeadError> {
    match r {
        Ok(v) => Ok(v@),
        Err(e) => Err(e),
    }
}

/// Opening as a result: `Decrypt` when not authentic.
pub open spec fn open_result(s: CipherSuite, key: Seq<u8>, nonce: Seq<u8>, ct: Seq<u8>, aad: Seq<u8>) -> Result<Seq<u8>, AeadError> {
    match open_spec(s, key, nonce, ct, aad) {
        Some(p) => Ok(p),
        None => Err(AeadError::Decrypt),
    }
}

/// What `decrypt_auto` returns: a framed message longer than 13 bytes with a known suite byte
/// is opened by that suite; otherwise a message longer than 12 bytes is read in the legacy
/// form with AES-256-GCM; a shorter one is refused.
pub open spec fn decrypt_auto_spec(key: Seq<u8>, data: Seq<u8>, aad: Seq<u8>) -> Result<Seq<u8>, AeadError> {
    if data.len() > 13 && suite_of_code(data[0]) is Some {
        open_result(suite_of_code(data[0])->0, key, data.subrange(1, 13), data.subrange(13, data.len() as int), aad)
    } else if data.len() > 12 {
        open_result(CipherSuite::Aes256Gcm, key, data.subrange(0, 12), data.subrange(12, data.len() as int), aad)
    } else {
        Err(AeadError::InvalidLength)
    }
}

impl CipherSuite {
    /// The suite that a wire byte identifies.
    pub fn from_u8(v: u8) -> (r: Option<Self>)
        ensures
            r == suite_of_code(v),
    {
        if v == 1 {
            Some(CipherSuite::Aes256Gcm)
        } else if v == 2 {
            Some(CipherSuite::ChaCha20Poly1305)
        } else {
            None
        }
    }

    /// The byte that identifies this suite on the wire.
    pub fn code(self) -> (r: u8)
        ensures
            r == suite_code(self),
    {
        match self {
            CipherSuite::Aes256Gcm => 1,
            CipherSuite::ChaCha20Poly1305 => 2,
        }
    }

    /// The display name of this suite.
    pub fn name(self) -> (r: &'static str)
        ensures
            r@ == suite_name(self),
    {
        match self {
            CipherSuite::Aes256Gcm => {
                proof { reveal_strlit("AES-256-GCM"); }
                "AES-256-GCM"
            },
            CipherSuite::ChaCha20Poly1305 => {
                proof { reveal_strlit("ChaCha20-Poly1305"); }
                "ChaCha20-Poly1305"
            },
        }
    }
}

/// The display name of each suite.
pub open spec fn suite_name(s: CipherSuite) -> Seq<char> {
    match s {
        CipherSuite::Aes256Gcm => seq!['A', 'E', 'S', '-', '2', '5', '6', '-', 'G', 'C', 'M'],
        CipherSuite::ChaCha20Poly1305 => seq![
            'C', 'h', 'a', 'C', 'h', 'a', '2', '0', '-', 'P', 'o', 'l', 'y', '1', '3', '0', '5'
        ],
    }
}

/// Encrypts with AES-256-GCM under a fresh random nonce (see `encrypt_with`).
pub fn encrypt(key: &[u8; 32], plaintext: &[u8], aad: &[u8]) -> (r: Result<Vec<u8>, AeadError>)
    ensures
        r is Ok <==> seal_accepts(CipherSuite::Aes256Gcm, plaintext@.len(), aad@.len()),
        r matches Ok(v) ==> is_sealed(v@, CipherSuite::Aes256Gcm, key@, plaintext@, aad@),
        r matches Ok(v) ==> v@.len() == 13 + plaintext@.len() + 16,
        r matches Err(e) ==> e == AeadError::Encrypt,
{
    encrypt_with(CipherSuite::Aes256Gcm, key, plaintext, aad)
}

/// Decrypts a framed (or legacy) message; the same as `decrypt_auto`.
pub fn decrypt(key: &[u8; 32], ciphertext: &[u8], aad: &[u8]) -> (r: Result<Vec<u8>, AeadError>)
    ensures
        bytes_result(r) == decrypt_auto_spec(key@, ciphertext@, aad@),
        (r == Err::<Vec<u8>, AeadError>(AeadError::InvalidLength)) <==> ciphertext@.len() <= 12,
        r matches Err(e) ==> e == AeadError::InvalidLength || e == AeadError::Decrypt,
        12 < ciphertext@.len() < 28 ==> r == Err::<Vec<u8>, AeadError>(AeadError::Decrypt),
        forall|s: CipherSuite, m: Seq<u8>|
            #[trigger] is_sealed(ciphertext@, s, key@, m, aad@) && seal_accepts(s, m.len(), aad@.len())
                ==> bytes_result(r) == Ok::<Seq<u8>, AeadError>(m),
{
    decrypt_auto(key, ciphertext, aad)
}

/// Encrypts under `suite` with the given nonce: the frame of suite byte, nonce and
/// ciphertext-and-tag; `Encrypt` exactly when the suite refuses the lengths.
pub fn encrypt_with_nonce(
    suite: CipherSuite,
    key: &[u8; 32],
    nonce: &[u8; 12],
    plaintext: &[u8],
    aad: &[u8],
) -> (r: Result<Vec<u8>, AeadError>)
    ensures
        r is Ok <==> seal_accepts(suite, plaintext@.len(), aad@.len()),
        r matches Ok(v) ==> v@ == frame(suite, nonce@, seal_spec(suite, key@, nonce@, plaintext@, aad@)),
        r matches Ok(v) ==> v@.len() == 13 + plaintext@.len() + 16,
        r matches Err(e) ==> e == AeadError::Encrypt,
{
    let ct = match suite {
        CipherSuite::Aes256Gcm => aes_gcm_encrypt(key, nonce, plaintext, aad),
        CipherSuite::ChaCha20Poly1305 => chacha_encrypt(key, nonce, plaintext, aad),
    };
    match ct {
        None => Err(AeadError::Encrypt),
        Some(ct) => {
            let mut out: Vec<u8> = Vec::new();
            out.push(suite.code());
            append_bytes(&mut out, nonce.as_slice());
            append_bytes(&mut out, ct.as_slice());
            assert(out@ =~= frame(suite, nonce@, seal_spec(suite, key@, nonce@, plaintext@, aad@)));
            Ok(out)
        },
    }
}

/// Encrypts under `suite` with a fresh random nonce. The nonce is drawn at random, so
/// the contract says what holds of every nonce: the result is the frame for the nonce it carries.
pub fn encrypt_with(suite: CipherSuite, key: &[u8; 32], plaintext: &[u8], aad: &[u8]) -> (r: Result<Vec<u8>, AeadError>)
    ensures
        r is Ok <==> seal_accepts(suite, plaintext@.len(), aad@.len()),
        r matches Ok(v) ==> is_sealed(v@, suite, key@, plaintext@, aad@),
        r matches Ok(v) ==> v@.len() == 13 + plaintext@.len() + 16,
        r matches Err(e) ==> e == AeadError::Encrypt,
{
    let nonce_bytes = thread_random_bytes(NONCE_LEN);
    let nonce = to_array12(nonce_bytes.as_slice());
    let r = encrypt_with_nonce(suite, key, &nonce, plaintext, aad);
    proof {
        if r is Ok {
            let v = r->Ok_0;
            assert(v@.subrange(1, 13) =~= nonce@);
        }
    }
    r
}

/// Decrypts a framed message, or a legacy unframed AES-256-GCM one; a message that
/// `encrypt_with` produced under the same key and associated data opens to its plaintext.
/// `InvalidLength` exactly for 12 bytes or fewer; any other error is `Decrypt`, which a message
/// too short to hold a tag always gets.
pub fn decrypt_auto(key: &[u8; 32], data: &[u8], aad: &[u8]) -> (r: Result<Vec<u8>, AeadError>)
    ensures
        bytes_result(r) == decrypt_auto_spec(key@, data@, aad@),
        (r == Err::<Vec<u8>, AeadError>(AeadError::InvalidLength)) <==> data@.len() <= 12,
        r matches Err(e) ==> e == AeadError::InvalidLength || e == AeadError::Decrypt,
        12 < data@.len() < 28 ==> r == Err::<Vec<u8>, AeadError>(AeadError::Decrypt),
        forall|s: CipherSuite, m: Seq<u8>|
            #[trigger] is_sealed(data@, s, key@, m, aad@) && seal_accepts(s, m.len(), aad@.len())
                ==> bytes_result(r) == Ok::<Seq<u8>, AeadError>(m),
        forall|nonce: Seq<u8>, m: Seq<u8>|
            nonce.len() == 12 && nonce[0] != 1u8 && nonce[0] != 2u8 && data@.len() > 12 && data@ == nonce
                + #[trigger] aes_gcm_seal(key@, nonce, m, aad@) && m.len() <= AES_GCM_MAX_LEN && aad@.len()
                <= AES_GCM_MAX_LEN ==> bytes_result(r) == Ok::<Seq<u8>, AeadError>(m),
{
    let n = data.len();
    if n > 1 + NONCE_LEN {
        if let Some(suite) = CipherSuite::from_u8(data[0]) {
            let r = open(suite, key, &data[1..1 + NONCE_LEN], &data[1 + NONCE_LEN..n], aad);
            proof {
                assert forall|s: CipherSuite, m: Seq<u8>|
                    #[trigger] is_sealed(data@, s, key@, m, aad@) && seal_accepts(s, m.len(), aad@.len())
                        implies bytes_result(r) == Ok::<Seq<u8>, AeadError>(m) by {
                    let nn = data@.subrange(1, 13);
                    let body = seal_spec(s, key@, nn, m, aad@);
                    assert(data@[0] == suite_code(s));
                    assert(data@.subrange(13, n as int) =~= body);
                }
                assert forall|nonce: Seq<u8>, m: Seq<u8>|
                    nonce.len() == 12 && nonce[0] != 1u8 && nonce[0] != 2u8 && data@.len() > 12 && data@ == nonce
                        + #[trigger] aes_gcm_seal(key@, nonce, m, aad@) && m.len() <= AES_GCM_MAX_LEN && aad@.len()
                        <= AES_GCM_MAX_LEN implies bytes_result(r) == Ok::<Seq<u8>, AeadError>(m) by {
                    assert(data@[0] == nonce[0]);
                }
            }
            return r;
        }
    }
    if n > NONCE_LEN {
        let r = open(CipherSuite::Aes256Gcm, key, &data[0..NONCE_LEN], &data[NONCE_LEN..n], aad);
        proof {
            assert forall|s: CipherSuite, m: Seq<u8>|
                #[trigger] is_sealed(data@, s, key@, m, aad@) && seal_accepts(s, m.len(), aad@.len())
                    implies bytes_result(r) == Ok::<Seq<u8>, AeadError>(m) by {
                assert(data@[0] == suite_code(s));
            }
            assert forall|nonce: Seq<u8>, m: Seq<u8>|
                nonce.len() == 12 && nonce[0] != 1u8 && nonce[0] != 2u8 && data@.len() > 12 && data@ == nonce
                    + #[trigger] aes_gcm_seal(key@, nonce, m, aad@) && m.len() <= AES_GCM_MAX_LEN && aad@.len()
                    <= AES_GCM_MAX_LEN implies bytes_result(r) == Ok::<Seq<u8>, AeadError>(m) by {
                assert(data@.subrange(0, 12) =~= nonce);
                assert(data@.subrange(12, n as int) =~= aes_gcm_seal(key@, nonce, m, aad@));
                assert(seal_spec(CipherSuite::Aes256Gcm, key@, nonce, m, aad@) == aes_gcm_seal(key@, nonce, m, aad@));
            }
        }
        return r;
    }
    Err(AeadError::InvalidLength)
}

fn open(suite: CipherSuite, key: &[u8; 32], nonce_bytes: &[u8], ct: &[u8], aad: &[u8]) -> (r: Result<Vec<u8>, AeadError>)
    requires
        nonce_bytes@.len() == 12,
    ensures
        bytes_result(r) == open_result(suite, key@, nonce_bytes@, ct@, aad@),
        r matches Err(e) ==> e == AeadError::Decrypt,
        ct@.len() < 16 ==> r == Err::<Vec<u8>, AeadError>(AeadError::Decrypt),
        forall|m: Seq<u8>|
            seal_accepts(suite, m.len(), aad@.len()) && ct@ == #[trigger] seal_spec(suite, key@, nonce_bytes@, m, aad@)
                ==> bytes_result(r) == Ok::<Seq<u8>, AeadError>(m),
{
    let nonce = to_array12(nonce_bytes);
    let p = match suite {
        CipherSuite::Aes256Gcm => aes_gcm_decrypt(key, &nonce, ct, aad),
        CipherSuite::ChaCha20Poly1305 => chacha_decrypt(key, &nonce, ct, aad),
    };
    match p {
        Some(p) => Ok(p),
        None => Err(AeadError::Decrypt),
    }
}

/// The suite used when none is chosen.
pub fn preferred_suite() -> (r: CipherSuite)
    ensures
        r == CipherSuite::Aes256Gcm,
{
    CipherSuite::Aes256Gcm
}

/// Every suite this library offers, in order of preference.
pub fn available_suites() -> (r: Vec<CipherSuite>)
    ensures
        r@ == seq![CipherSuite::Aes256Gcm, CipherSuite::ChaCha20Poly1305],
{
    let mut v: Vec<CipherSuite> = Vec::new();
    v.push(CipherSuite::Aes256Gcm);
    v.push(CipherSuite::ChaCha20Poly1305);
    v
}


/// A legacy message and the framed AES-256-GCM message with the same nonce and body decrypt
/// alike: for a 12-byte nonce whose first byte is no suite code and a nonempty body, reading
/// `nonce ++ body` gives exactly what reading `[1] ++ nonce ++ body` gives, which is the
/// AES-256-GCM opening of the body under that nonce. Only data of 12 bytes or fewer is refused
/// for its length.
pub proof fn law_legacy_form(key: Seq<u8>, nonce: Seq<u8>, body: Seq<u8>, aad: Seq<u8>)
    requires
        nonce.len() == 12,
        nonce[0] != 1u8,
        nonce[0] != 2u8,
        body.len() > 0,
    ensures
        decrypt_auto_spec(key, nonce + body, aad) == decrypt_auto_spec(
            key,
            frame(CipherSuite::Aes256Gcm, nonce, body),
            aad,
        ),
        decrypt_auto_spec(key, nonce + body, aad) == match aes_gcm_open(key, nonce, body, aad) {
            Some(p) => Ok::<Seq<u8>, AeadError>(p),
            None => Err(AeadError::Decrypt),
        },
        forall|d: Seq<u8>| #[trigger] decrypt_auto_spec(key, d, aad) == Err::<Seq<u8>, AeadError>(AeadError::InvalidLength) <==> d.len() <= 12,
{
    let d = nonce + body;
    let f = frame(CipherSuite::Aes256Gcm, nonce, body);
    assert(d[0] == nonce[0]);
    assert(d.subrange(0, 12) =~= nonce);
    assert(d.subrange(12, d.len() as int) =~= body);
    assert(f[0] == 1u8);
    assert(f.subrange(1, 13) =~= nonce);
    assert(f.subrange(13, f.len() as int) =~= body);
}

} // verus!
