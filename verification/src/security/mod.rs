//! Security: hidden vault, environment risk, keystore, file wiping.
pub mod detect;
pub mod keystore;
pub mod vault;
pub mod wipe;

pub use detect::ForensicDetector;
pub use keystore::{KeystoreError, SecureKeystore, SoftwareKeystore};
pub use vault::{DuressAction, Vault, VaultConfig, VaultError, VaultMode};
