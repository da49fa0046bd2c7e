//! Liberty Core: the verified engine of a federated end-to-end encrypted messenger.
use vstd::prelude::*;

pub mod api;
pub mod assoc;
pub mod bytes;
pub mod crypto;
pub mod ffi;
pub mod groups;
pub mod identity;
pub mod import;
pub mod messaging;
pub mod network;
pub mod security;
pub mod text;

pub use crypto::{EncryptedMessage, MessageHeader, RatchetSession, SessionKeys, SessionManager};
pub use groups::{GroupManager, GroupMeta, GroupSession, Role};
pub use identity::Identity;
pub use import::{ImportResult, TelegramImporter, WhatsAppImportResult, WhatsAppImporter};
pub use messaging::MessagingService;
pub use security::{Vault, VaultConfig, VaultMode};

verus! {

/// Version of this library.
pub const VERSION: &'static str = "0.1.0";

} // verus!
