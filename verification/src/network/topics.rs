//! Gossipsub topics.
use vstd::prelude::*;

verus! {

/// Chat messages.
pub const CHAT: &'static str = "liberty/chat/1.0.0";
/// Presence announcements.
pub const PRESENCE: &'static str = "liberty/presence/1.0.0";
/// Prekey bundles.
pub const PREKEY: &'static str = "liberty/prekey/1.0.0";
/// Group messages.
pub const GROUP: &'static str = "liberty/group/1.0.0";

} // verus!
