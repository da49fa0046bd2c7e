use liberty_core::security::{ForensicDetector, KeystoreError, SecureKeystore, SoftwareKeystore};
use liberty_core::security::{Vault, VaultConfig, VaultError, VaultMode};

fn config(master: &str, duress: &str) -> VaultConfig {
    VaultConfig { db_path: "/tmp/vault".to_string(), master_password: master.to_string(), duress_password: duress.to_string() }
}

#[test]
fn master_password_opens_real_store() {
    let mut v = Vault::new(config("correct horse", "panic now")).unwrap();
    assert_eq!(v.mode(), None);
    assert_eq!(v.unlock("correct horse"), Ok(VaultMode::Real));
    assert!(v.is_real());
    assert_eq!(v.mode(), Some(VaultMode::Real));
}

#[test]
fn other_password_opens_decoy_store() {
    let mut v = Vault::new(config("correct horse", "panic now")).unwrap();
    assert_eq!(v.unlock("wrong guess"), Ok(VaultMode::Decoy));
    assert!(!v.is_real());
}

#[test]
fn duress_password_wipes() {
    let mut v = Vault::new(config("correct horse", "panic now")).unwrap();
    assert_eq!(v.unlock("panic now"), Ok(VaultMode::Panic));
    assert_eq!(v.mode(), Some(VaultMode::Panic));
    assert!(!v.is_real());
}

#[test]
fn second_unlock_is_refused_until_aborted() {
    let mut v = Vault::new(config("a", "b")).unwrap();
    assert_eq!(v.unlock("a"), Ok(VaultMode::Real));
    assert_eq!(v.unlock("a"), Err(VaultError::AlreadyUnlocked));
    v.abort_unlock();
    assert_eq!(v.mode(), None);
    assert_eq!(v.unlock("zzz"), Ok(VaultMode::Decoy));
}

#[test]
fn same_master_and_duress_means_panic() {
    let mut v = Vault::new(config("same", "same")).unwrap();
    assert_eq!(v.unlock("same"), Ok(VaultMode::Panic));
}

#[test]
fn panic_wipe_sets_panic_mode() {
    let mut v = Vault::new(config("a", "b")).unwrap();
    assert!(v.panic_wipe().is_ok());
    assert_eq!(v.mode(), Some(VaultMode::Panic));
    assert_eq!(v.db_path(), "/tmp/vault");
}

#[test]
fn risk_levels() {
    assert_eq!(ForensicDetector::risk_level(false, false), 0);
    assert_eq!(ForensicDetector::risk_level(true, false), 2);
    assert_eq!(ForensicDetector::risk_level(false, true), 3);
    assert_eq!(ForensicDetector::risk_level(true, true), 5);
}

#[test]
fn keystore_store_load_delete() {
    let mut ks = SoftwareKeystore::new();
    assert!(!ks.is_hardware_backed());
    assert_eq!(ks.load("k"), Err(KeystoreError::NotFound));
    ks.store("k", &[1, 2, 3]).unwrap();
    assert_eq!(ks.load("k").unwrap(), vec![1, 2, 3]);
    ks.store("k", &[9]).unwrap();
    assert_eq!(ks.load("k").unwrap(), vec![9]);
    ks.delete("k").unwrap();
    assert_eq!(ks.load("k"), Err(KeystoreError::NotFound));
    assert!(ks.delete("k").is_ok());
}
