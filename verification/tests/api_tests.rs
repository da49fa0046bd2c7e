use liberty_core::api::{core_version, identity_create, ApiState};
use liberty_core::bytes::hex_decode;
use liberty_core::crypto::{IdentityKeyPair, SessionManager};
use liberty_core::identity::Identity;
use liberty_core::network::{FederationConfig, FederationMode};

#[test]
fn handles_start_at_one_and_are_never_reused() {
    let mut api = ApiState::new();
    let s1 = api.session_create();
    let v1 = api.vault_create("/tmp/a".to_string(), "master".to_string(), "duress".to_string());
    let s2 = api.session_create();
    assert_eq!(s1, 1);
    assert_eq!(v1, 2);
    assert_eq!(s2, 3);
    assert!(api.vault_close(v1));
    assert!(!api.vault_close(v1));
    let v2 = api.vault_create("/tmp/b".to_string(), "m".to_string(), "d".to_string());
    assert_eq!(v2, 4);
}

#[test]
fn vault_unlock_codes_through_handles() {
    let mut api = ApiState::new();
    let h = api.vault_create("/tmp/v".to_string(), "master-pw".to_string(), "duress-pw".to_string());
    assert_ne!(h, 0);
    assert!(!api.vault_is_real(h));
    assert_eq!(api.vault_unlock(h, "master-pw"), 1);
    assert!(api.vault_is_real(h));
    // Already unlocked: an error.
    assert_eq!(api.vault_unlock(h, "master-pw"), 0);
    let d = api.vault_create("/tmp/w".to_string(), "master-pw".to_string(), "duress-pw".to_string());
    assert_eq!(api.vault_unlock(d, "something else"), 2);
    assert!(!api.vault_is_real(d));
    let p = api.vault_create("/tmp/x".to_string(), "master-pw".to_string(), "duress-pw".to_string());
    assert_eq!(api.vault_unlock(p, "duress-pw"), 3);
    assert!(!api.vault_is_real(p));
}

#[test]
fn unknown_handles_fail() {
    let mut api = ApiState::new();
    assert_eq!(api.vault_unlock(42, "x"), 0);
    assert!(!api.vault_is_real(42));
    assert!(!api.vault_close(42));
    assert!(api.session_prekey_bundle(42).is_none());
    let bundle = SessionManager::new(IdentityKeyPair::generate()).our_prekey_bundle().unwrap().clone();
    assert_eq!(api.session_start_initiator(42, "bob", &bundle), "");
    assert!(api.session_encrypt(42, "bob", "hi", "").is_none());
    // A session handle is not a vault handle.
    let s = api.session_create();
    assert_eq!(api.vault_unlock(s, "x"), 0);
}

#[test]
fn session_handles_start_and_encrypt() {
    let mut api = ApiState::new();
    let alice = api.session_create();
    let bob = api.session_create();
    let bob_bundle = api.session_prekey_bundle(bob).unwrap();
    assert!(api.session_encrypt(alice, "bob", "too early", "").is_none());
    let eph_hex = api.session_start_initiator(alice, "bob", &bob_bundle);
    assert_eq!(eph_hex.len(), 64);
    let eph = hex_decode(&eph_hex).unwrap();
    assert_eq!(eph.len(), 32);
    let msg = api.session_encrypt(alice, "bob", "hello", &eph_hex).unwrap();
    assert_eq!(msg.initiator_ephemeral.unwrap().to_vec(), eph);
    assert_eq!(msg.header.n, 0);
    let msg2 = api.session_encrypt(alice, "bob", "again", "not hex").unwrap();
    assert_eq!(msg2.initiator_ephemeral, None);
    assert_eq!(msg2.header.n, 1);
}

#[test]
fn federation_settings_through_api() {
    let mut api = ApiState::new();
    assert!(api.federation_mesh_enabled());
    let cfg = api.federation_get();
    assert_eq!(cfg.local_name, "liberty-node");
    assert_eq!(cfg.max_bootstrap, 8);
    assert!(!api.federation_set_json(None));
    let mut private = FederationConfig::default();
    private.mode = FederationMode::Private;
    assert!(api.federation_set_json(Some(private)));
    assert!(!api.federation_mesh_enabled());
    assert_eq!(api.federation_get().mode, FederationMode::Private);
    assert!(api.federation_bootstrap_addrs().is_empty());
}

#[test]
fn identity_create_generates_then_reloads() {
    let (peer, stored) = identity_create(None);
    let bytes = stored.unwrap();
    assert_eq!(bytes.len(), 64);
    assert!(peer.starts_with("liberty:"));
    assert_eq!(peer.len(), 40);
    let (again, none) = identity_create(Some(&bytes));
    assert!(none.is_none());
    assert_eq!(again, peer);
    let (short, _) = identity_create(Some(&[1u8; 31]));
    assert_eq!(short, "");
    let id = Identity::load_bytes(&bytes).unwrap();
    assert_eq!(id.peer_id(), peer);
}

#[test]
fn version_is_package_version() {
    assert_eq!(core_version(), "0.1.0");
}

#[test]
fn vault_abort_unlock_relocks() {
    let mut api = ApiState::new();
    let h = api.vault_create("/tmp/y".to_string(), "m".to_string(), "d".to_string());
    assert_eq!(api.vault_unlock(h, "m"), 1);
    assert!(api.vault_abort_unlock(h));
    assert!(!api.vault_is_real(h));
    assert_eq!(api.vault_unlock(h, "other"), 2);
    assert!(!api.vault_abort_unlock(999));
}

#[test]
fn session_can_encrypt_on_fresh_sessions() {
    let mut api = ApiState::new();
    let a = api.session_create();
    let b = api.session_create();
    assert!(api.session_can_encrypt(a, "bob"));
    assert!(api.session_can_encrypt(99, "bob"));
    let bundle = api.session_prekey_bundle(b).unwrap();
    api.session_start_initiator(a, "bob", &bundle);
    assert!(api.session_can_encrypt(a, "bob"));
}

#[test]
fn forged_bundle_through_api() {
    let mut api = ApiState::new();
    let a = api.session_create();
    let b = api.session_create();
    let mut bundle = api.session_prekey_bundle(b).unwrap();
    bundle.signature[0] ^= 1;
    assert_eq!(api.session_start_initiator(a, "bob", &bundle), "");
    assert!(api.session_encrypt(a, "bob", "x", "").is_none());
}

#[test]
fn vault_is_real_only_after_an_answer_of_one() {
    let mut api = ApiState::new();
    let h = api.vault_create("/tmp/r".to_string(), "master-pw".to_string(), "duress-pw".to_string());
    assert!(!api.vault_is_real(h));
    assert_eq!(api.vault_unlock(h, "guess"), 2);
    assert!(!api.vault_is_real(h));
    assert_eq!(api.vault_unlock(h, "master-pw"), 0);
    assert!(!api.vault_is_real(h));
    let g = api.vault_create("/tmp/s".to_string(), "master-pw".to_string(), "duress-pw".to_string());
    assert_eq!(api.vault_unlock(g, "master-pw"), 1);
    assert!(api.vault_is_real(g));
    assert!(api.vault_close(g));
    assert!(!api.vault_is_real(g));
}
