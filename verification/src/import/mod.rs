//! Import from other messengers.
pub mod telegram;
pub mod whatsapp;

pub use telegram::{ImportResult, TelegramImporter};
pub use whatsapp::{WhatsAppImportResult, WhatsAppImporter};
