use liberty_core::api::ApiState;
use liberty_core::bytes::{hex_decode, hex_encode, u32_to_be_bytes};
use liberty_core::crypto::{IdentityKeyPair, SessionManager};
use liberty_core::ffi::error::FfiError;
use liberty_core::identity::{derive_peer_id, Identity, IdentityError};
use liberty_core::messaging::MessagingService;

#[test]
fn ffi_codes_are_stable() {
    assert_eq!(FfiError::Success.code(), 0);
    assert_eq!(FfiError::InvalidHandle.code(), 1);
    assert_eq!(FfiError::Locked.code(), 2);
    assert_eq!(FfiError::Crypto.code(), 3);
    assert_eq!(FfiError::Network.code(), 4);
    assert_eq!(FfiError::Storage.code(), 5);
    assert_eq!(FfiError::InvalidPassword.code(), 6);
    assert_eq!(FfiError::PanicWiped.code(), 7);
    assert_eq!(FfiError::NoSession.code(), 8);
    assert_eq!(FfiError::Serialize.code(), 9);
    assert_eq!(FfiError::Internal.code(), 99);
}

#[test]
fn hex_round_trip_and_rejects() {
    assert_eq!(hex_encode(&[0x00, 0xab, 0xff]), "00abff");
    assert_eq!(hex_decode("00abff"), Some(vec![0x00, 0xab, 0xff]));
    assert_eq!(hex_decode("00ABFF"), Some(vec![0x00, 0xab, 0xff]));
    assert_eq!(hex_decode("abc"), None);
    assert_eq!(hex_decode("zz"), None);
    assert_eq!(hex_decode(""), Some(vec![]));
    assert_eq!(u32_to_be_bytes(0x01020304), [1, 2, 3, 4]);
}

#[test]
fn identity_storage_round_trip() {
    let id = Identity::generate();
    let bytes = id.key_bytes();
    assert_eq!(bytes.len(), 64);
    let back = Identity::load_bytes(&bytes).unwrap();
    assert_eq!(back.peer_id(), id.peer_id());
    assert_eq!(back.public_key_bytes(), id.public_key_bytes());
    assert_eq!(back.keypair().dh_public_bytes(), id.keypair().dh_public_bytes());
    assert!(matches!(Identity::load_bytes(&bytes[..31]), Err(IdentityError::InvalidKey)));
}

#[test]
fn short_key_material_reuses_ed_secret() {
    let id = Identity::generate();
    let bytes = id.key_bytes();
    let half = Identity::load_bytes(&bytes[..32]).unwrap();
    assert_eq!(half.peer_id(), id.peer_id());
    assert_eq!(half.keypair().secret_bytes(), half.keypair().dh_secret_bytes());
}

#[test]
fn peer_id_is_hashed_not_the_key() {
    let key = [5u8; 32];
    let p = derive_peer_id(&key);
    assert!(p.starts_with("liberty:"));
    assert_eq!(p.len(), 40);
    assert_ne!(&p[8..], &hex_encode(&key[..16]));
    assert_eq!(p, derive_peer_id(&key));
    assert_ne!(p, derive_peer_id(&[6u8; 32]));
}

#[test]
fn messaging_service_send_needs_session() {
    let mut svc = MessagingService::new(IdentityKeyPair::generate(), "me".to_string());
    assert_eq!(svc.peer_id, "me");
    assert_eq!(svc.send("bob", b"hi").unwrap_err(), "encryption failed");
    let bob = SessionManager::new(IdentityKeyPair::generate());
    let bundle = bob.our_prekey_bundle().unwrap().clone();
    svc.sessions_mut().start_as_initiator("bob", &bundle).unwrap();
    let m = svc.send("bob", b"hi").unwrap();
    assert_eq!(m.header.n, 0);
    assert!(!m.ciphertext.is_empty());
}

#[test]
fn api_can_alloc_at_start() {
    assert!(ApiState::new().can_alloc());
}

#[test]
fn messaging_service_can_send_on_fresh_session() {
    let svc = MessagingService::new(IdentityKeyPair::generate(), "me".to_string());
    assert!(svc.can_send("anyone"));
}
