//! Media and file encryption.
use vstd::prelude::*;
use vstd::string::*;
use crate::bytes::{hex_encode, hex_encode_spec, to_array32};
use crate::crypto::aead::{
    bytes_result, decrypt, decrypt_auto_spec, encrypt_with, is_sealed, seal_accepts, AeadError, CipherSuite,
};
use crate::crypto::primitives::{hkdf_sha256, hkdf_sha256_expand, thread_random_bytes};

verus! {

/// An encrypted attachment: its id, type, plaintext size, file name, ciphertext and suite byte.
#[derive(Clone, Debug)]
pub struct MediaAttachment {
    pub id: String,
    pub mime: String,
    pub size: u64,
    pub filename: String,
    pub ciphertext: Vec<u8>,
    pub suite: u8,
}

/// `Liberty-Media-v1`: HKDF info of attachment keys.
pub open spec fn media_info() -> Seq<u8> {
    seq![76u8, 105, 98, 101, 114, 116, 121, 45, 77, 101, 100, 105, 97, 45, 118, 49]
}

/// The key of the attachment with id `id` under chain key `chain_key`: HKDF with the id's
/// bytes as salt.
pub open spec fn media_key(chain_key: Seq<u8>, id: Seq<char>) -> Seq<u8> {
    hkdf_sha256(Some(vstd::utf8::encode_utf8(id)), chain_key, media_info(), 32)
}

/// Attachment encryption.
pub struct MediaCrypto;

impl MediaCrypto {
    /// The key of an attachment.
    pub fn derive_key(chain_key: &[u8; 32], attachment_id: &str) -> (r: [u8; 32])
        ensures
            r@ == media_key(chain_key@, attachment_id@),
    {
        let info: [u8; 16] = [76, 105, 98, 101, 114, 116, 121, 45, 77, 101, 100, 105, 97, 45, 118, 49];
        assert(info@ =~= media_info());
        let okm = hkdf_sha256_expand(Some(attachment_id.as_bytes()), chain_key.as_slice(), info.as_slice(), 32);
        to_array32(okm.as_slice())
    }

    /// Encrypts a file under a fresh random 16-byte id (kept as hex): AES-256-GCM with the
    /// attachment key, the id's bytes as associated data. `Encrypt` when the data is too long.
    pub fn encrypt_file(chain_key: &[u8; 32], filename: &str, mime: &str, data: &[u8]) -> (r: Result<
        MediaAttachment,
        AeadError,
    >)
        ensures
            r is Ok <==> seal_accepts(CipherSuite::Aes256Gcm, data@.len(), 32),
            r matches Err(e) ==> e == AeadError::Encrypt,
            r matches Ok(a) ==> {
                &&& a.mime@ == mime@
                &&& a.filename@ == filename@
                &&& a.size == data@.len()
                &&& a.suite == 1
                &&& a.id@.len() == 32
                &&& exists|idb: Seq<u8>| idb.len() == 16 && a.id@ == #[trigger] hex_encode_spec(idb)
                &&& is_sealed(
                    a.ciphertext@,
                    CipherSuite::Aes256Gcm,
                    media_key(chain_key@, a.id@),
                    data@,
                    vstd::utf8::encode_utf8(a.id@),
                )
            },
    {
        let id_bytes = thread_random_bytes(16);
        let id = hex_encode(id_bytes.as_slice());
        assert(id@ == hex_encode_spec(id_bytes@));
        let key = Self::derive_key(chain_key, id.as_str());
        proof { vstd::utf8::is_ascii_chars_encode_utf8(id@); }
        let ct = match encrypt_with(CipherSuite::Aes256Gcm, &key, data, id.as_str().as_bytes()) {
            Ok(c) => c,
            Err(e) => return Err(e),
        };
        Ok(MediaAttachment {
            id,
            mime: String::from_str(mime),
            size: data.len() as u64,
            filename: String::from_str(filename),
            ciphertext: ct,
            suite: CipherSuite::Aes256Gcm.code(),
        })
    }

    /// Decrypts an attachment with its key; an attachment that `encrypt_file` made under this
    /// chain key decrypts to the file's data.
    pub fn decrypt_file(chain_key: &[u8; 32], attachment: &MediaAttachment) -> (r: Result<Vec<u8>, AeadError>)
        ensures
            bytes_result(r) == decrypt_auto_spec(
                media_key(chain_key@, attachment.id@),
                attachment.ciphertext@,
                vstd::utf8::encode_utf8(attachment.id@),
            ),
            forall|s: CipherSuite, m: Seq<u8>|
                #[trigger] is_sealed(
                    attachment.ciphertext@,
                    s,
                    media_key(chain_key@, attachment.id@),
                    m,
                    vstd::utf8::encode_utf8(attachment.id@),
                ) && seal_accepts(s, m.len(), vstd::utf8::encode_utf8(attachment.id@).len()) ==> bytes_result(r)
                    == Ok::<Seq<u8>, AeadError>(m),
    {
        let key = Self::derive_key(chain_key, attachment.id.as_str());
        decrypt(&key, attachment.ciphertext.as_slice(), attachment.id.as_str().as_bytes())
    }
}

} // verus!
