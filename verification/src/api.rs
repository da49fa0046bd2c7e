//! The handle-based interface for the app shell: vaults and session managers are held here
//! and named by positive integer handles; 0 stands for failure.
use vstd::prelude::*;
use vstd::string::*;
use crate::assoc::{assoc_view, distinct_keys, find_by_u32, lemma_assoc_at, lemma_assoc_push, lemma_assoc_remove, lemma_assoc_update};
use crate::crypto::keys::IdentityKeyPair;
use crate::crypto::session::{message_outcome, SessionManager, SessionManagerView};
use crate::crypto::x3dh::{bundle_signed, x3dh_initiator_keys, PreKeyBundle};
use crate::crypto::ratchet::{initial_view, RatchetView};
use crate::crypto::primitives::{ed25519_public, ed25519_sign, x25519_base};
use crate::bytes::{hex_decode, hex_decode_spec, hex_encode, hex_encode_spec, to_array32};
use crate::identity::{ed_secret_of, key_material_secrets, peer_id_spec, dh_secret_of, Identity};
use crate::network::federation::{config_view, mesh_enabled, mesh_enabled_spec, FederationConfig};
use crate::security::vault::{unlock_spec, Vault, VaultConfig, VaultMode, VaultView};

verus! {

/// The view of a handle key.
pub open spec fn handle_key() -> spec_fn(u32) -> u32 {
    |k: u32| k
}

/// The view of a vault entry.
pub open spec fn vault_value() -> spec_fn(Vault) -> VaultView {
    |v: Vault| v@
}

/// The view of a session-manager entry.
pub open spec fn session_value() -> spec_fn(SessionManager) -> SessionManagerView {
    |v: SessionManager| v@
}

/// The published bundle of a session-manager entry.
pub open spec fn bundle_value() -> spec_fn(SessionManager) -> Option<PreKeyBundle> {
    |v: SessionManager| v.our_prekey_bundle_spec()
}

/// The state of the interface as values.
pub struct ApiView {
    /// Open vaults by handle.
    pub vaults: Map<u32, VaultView>,
    /// Session managers by handle.
    pub sessions: Map<u32, SessionManagerView>,
    /// The prekey bundle each session manager publishes, by handle.
    pub bundles: Map<u32, Option<PreKeyBundle>>,
    /// The next handle to give out.
    pub next: u32,
    /// The federation settings.
    pub federation: FederationConfig,
}

/// Every handle in use is positive and below the next one, and no handle names both a vault
/// and a session manager.
pub open spec fn handles_ok(v: ApiView) -> bool {
    &&& v.next >= 1
    &&& forall|k: u32| #[trigger] v.vaults.contains_key(k) ==> 1 <= k < v.next
    &&& forall|k: u32| #[trigger] v.sessions.contains_key(k) ==> 1 <= k < v.next
    &&& forall|k: u32| v.vaults.contains_key(k) ==> !v.sessions.contains_key(k)
    &&& v.bundles.dom() == v.sessions.dom()
}

/// The 32 bytes that `eph_hex` spells when it is 64 hex digits.
pub open spec fn eph_from_hex(t: Seq<u8>) -> Option<Seq<u8>> {
    if t.len() == 64 {
        match hex_decode_spec(t) {
            Some(b) => if b.len() == 32 {
                Some(b)
            } else {
                None
            },
            None => None,
        }
    } else {
        None
    }
}

/// The bytes of an optional key.
pub open spec fn opt_key_view(k: Option<[u8; 32]>) -> Option<Seq<u8>> {
    match k {
        Some(a) => Some(a@),
        None => None,
    }
}

/// The numeric answer to an unlock: 1 real, 2 decoy, 3 panic, 0 error.
pub open spec fn unlock_code(r: Result<VaultMode, crate::security::vault::VaultError>) -> i32 {
    match r {
        Ok(VaultMode::Real) => 1,
        Ok(VaultMode::Decoy) => 2,
        Ok(VaultMode::Panic) => 3,
        Err(_) => 0,
    }
}

/// The open vaults, the session managers and the federation settings behind the handles.
pub struct ApiState {
    vaults: Vec<(u32, Vault)>,
    sessions: Vec<(u32, SessionManager)>,
    next: u32,
    federation: FederationConfig,
}

impl View for ApiState {
    type V = ApiView;

    closed spec fn view(&self) -> ApiView {
        ApiView {
            vaults: assoc_view(self.vaults@, handle_key(), vault_value()),
            sessions: assoc_view(self.sessions@, handle_key(), session_value()),
            bundles: assoc_view(self.sessions@, handle_key(), bundle_value()),
            next: self.next,
            federation: self.federation,
        }
    }
}

impl ApiState {
    #[verifier::type_invariant]
    spec fn handles_valid(self) -> bool {
        &&& distinct_keys(self.vaults@, handle_key())
        &&& distinct_keys(self.sessions@, handle_key())
        &&& self.next >= 1
        &&& forall|i: int| 0 <= i < self.vaults@.len() ==> 1 <= #[trigger] self.vaults@[i].0 < self.next
        &&& forall|i: int| 0 <= i < self.sessions@.len() ==> 1 <= #[trigger] self.sessions@[i].0 < self.next
        &&& forall|i: int, j: int|
            0 <= i < self.vaults@.len() && 0 <= j < self.sessions@.len() ==> #[trigger] self.vaults@[i].0
                != #[trigger] self.sessions@[j].0
    }

    proof fn lemma_handles_ok(&self)
        requires
            self.handles_valid(),
        ensures
            handles_ok(self@),
    {
        assert forall|k: u32| #[trigger] self@.vaults.contains_key(k) implies 1 <= k < self.next by {
            let i = choose|i: int| 0 <= i < self.vaults@.len() && self.vaults@[i].0 == k;
            assert(1 <= self.vaults@[i].0 < self.next);
        }
        assert forall|k: u32| #[trigger] self@.sessions.contains_key(k) implies 1 <= k < self.next by {
            let i = choose|i: int| 0 <= i < self.sessions@.len() && self.sessions@[i].0 == k;
            assert(1 <= self.sessions@[i].0 < self.next);
        }
        assert forall|k: u32| self@.vaults.contains_key(k) implies !self@.sessions.contains_key(k) by {
            let i = choose|i: int| 0 <= i < self.vaults@.len() && self.vaults@[i].0 == k;
            if self@.sessions.contains_key(k) {
                let j = choose|j: int| 0 <= j < self.sessions@.len() && self.sessions@[j].0 == k;
                assert(self.vaults@[i].0 != self.sessions@[j].0);
            }
        }
        assert(self@.bundles.dom() =~= self@.sessions.dom());
    }

    /// No vaults, no session managers, handles from 1, default federation settings.
    pub fn new() -> (r: Self)
        ensures
            r@.vaults == Map::<u32, VaultView>::empty(),
            r@.sessions == Map::<u32, SessionManagerView>::empty(),
            r@.next == 1,
            r@.federation.mode == crate::network::federation::FederationMode::Federated,
            r@.federation.local_name@ == "liberty-node"@,
            r@.federation.peers@.len() == 0,
            r@.federation.open_discovery,
            r@.federation.max_bootstrap == 8,
            handles_ok(r@),
    {
        let r = ApiState { vaults: Vec::new(), sessions: Vec::new(), next: 1, federation: FederationConfig::default() };
        assert(r@.vaults =~= Map::<u32, VaultView>::empty());
        assert(r@.sessions =~= Map::<u32, SessionManagerView>::empty());
        assert(r@.bundles =~= Map::<u32, Option<PreKeyBundle>>::empty());
        r
    }

    /// A fresh handle: the next one, which no vault or session manager uses.
    pub fn alloc_id(&mut self) -> (r: u32)
        requires
            old(self)@.next < u32::MAX,
        ensures
            r == old(self)@.next,
            r >= 1,
            !old(self)@.vaults.contains_key(r),
            !old(self)@.sessions.contains_key(r),
            final(self)@ == (ApiView { next: (old(self)@.next + 1) as u32, ..old(self)@ }),
            handles_ok(final(self)@),
    {
        proof { use_type_invariant(&*self); self.lemma_handles_ok(); }
        let id = self.next;
        self.next = self.next + 1;
        proof { use_type_invariant(&*self); self.lemma_handles_ok(); }
        id
    }

    /// Whether another handle can be given out.
    pub fn can_alloc(&self) -> (r: bool)
        ensures
            r == (self@.next < u32::MAX),
    {
        self.next < u32::MAX
    }

    /// Creates a locked vault for the three settings and returns its new handle; 0 (and no
    /// change) when `Vault::new` fails.
    pub fn vault_create(&mut self, db_path: String, master: String, duress: String) -> (r: u32)
        requires
            old(self)@.next < u32::MAX,
        ensures
            handles_ok(final(self)@),
            r != 0 <==> (crate::security::vault::pw_bytes(master@).len() <= 0xFFFF_FFFF
                && crate::security::vault::pw_bytes(duress@).len() <= 0xFFFF_FFFF),
            r == 0 ==> final(self)@ == old(self)@,
            r != 0 ==> {
                &&& r == old(self)@.next
                &&& !old(self)@.vaults.contains_key(r)
                &&& final(self)@.next == old(self)@.next + 1
                &&& final(self)@.sessions == old(self)@.sessions
                &&& final(self)@.federation == old(self)@.federation
                &&& final(self)@.vaults.dom() == old(self)@.vaults.dom().insert(r)
                &&& forall|k: u32| k != r && #[trigger] old(self)@.vaults.contains_key(k) ==> final(self)@.vaults[k]
                    == old(self)@.vaults[k]
                &&& final(self)@.vaults[r].db_path == db_path@
                &&& final(self)@.vaults[r].master_password == master@
                &&& final(self)@.vaults[r].duress_password == duress@
                &&& final(self)@.vaults[r].mode is None
                &&& final(self)@.vaults[r].master_hash == crate::security::vault::argon2_hash(
                    crate::security::vault::pw_bytes(master@),
                    final(self)@.vaults[r].salt,
                )
                &&& final(self)@.vaults[r].duress_hash == crate::security::vault::argon2_hash(
                    crate::security::vault::pw_bytes(duress@),
                    final(self)@.vaults[r].salt,
                )
            },
    {
        proof { use_type_invariant(&*self); self.lemma_handles_ok(); }
        let config = VaultConfig { db_path, master_password: master, duress_password: duress };
        match Vault::new(config) {
            Ok(v) => {
                let id = self.alloc_id();
                proof {
                    use_type_invariant(&*self);
                    assert forall|i: int| 0 <= i < self.vaults@.len() implies self.vaults@[i].0 != id by {}
                    lemma_assoc_push(self.vaults@, handle_key(), vault_value(), (id, v));
                }
                let ghost before = self.vaults@;
                let mut t: Vec<(u32, Vault)> = Vec::new();
                std::mem::swap(&mut t, &mut self.vaults);
                t.push((id, v));
                proof {
                    assert(t@ == before.push((id, v)));
                    assert forall|i: int, j: int|
                        0 <= i < t@.len() && 0 <= j < self.sessions@.len() implies #[trigger] t@[i].0
                        != #[trigger] self.sessions@[j].0 by {
                        if i < before.len() {
                            assert(t@[i] == before[i]);
                        }
                    }
                    assert forall|i: int| 0 <= i < t@.len() implies 1 <= #[trigger] t@[i].0 < self.next by {
                        if i < before.len() {
                            assert(t@[i] == before[i]);
                        }
                    }
                }
                self.vaults = t;
                proof { use_type_invariant(&*self); self.lemma_handles_ok(); }
                id
            },
            Err(_) => 0,
        }
    }

    /// Unlocks the vault behind `handle` with `password` (see `unlock_spec`) and answers 1 for
    /// the real store, 2 for the decoy, 3 for a panic wipe, 0 for an error or an unknown handle.
    pub fn vault_unlock(&mut self, handle: u32, password: &str) -> (r: i32)
        ensures
            handles_ok(final(self)@),
            !old(self)@.vaults.contains_key(handle) ==> r == 0 && final(self)@ == old(self)@,
            old(self)@.vaults.contains_key(handle) && old(self)@.vaults[handle].mode is None ==> r != 0,
            forall|salt: Seq<char>|
                old(self)@.vaults.contains_key(handle) && old(self)@.vaults[handle].mode is None
                    && crate::security::vault::pw_bytes(password@).len() <= 0xFFFF_FFFF
                    && old(self)@.vaults[handle].master_hash == #[trigger] crate::security::vault::argon2_hash(
                    crate::security::vault::pw_bytes(password@),
                    salt,
                ) ==> r == 1 || r == 3,
            forall|salt: Seq<char>|
                old(self)@.vaults.contains_key(handle) && old(self)@.vaults[handle].mode is None
                    && crate::security::vault::pw_bytes(password@).len() <= 0xFFFF_FFFF
                    && old(self)@.vaults[handle].duress_hash == #[trigger] crate::security::vault::argon2_hash(
                    crate::security::vault::pw_bytes(password@),
                    salt,
                ) ==> r == 3,
            old(self)@.vaults.contains_key(handle) ==> {
                let (v, res) = unlock_spec(old(self)@.vaults[handle], password@);
                &&& r == unlock_code(res)
                &&& final(self)@ == (ApiView { vaults: old(self)@.vaults.insert(handle, v), ..old(self)@ })
            },
    {
        proof { use_type_invariant(&*self); self.lemma_handles_ok(); }
        let i = match find_by_u32(&self.vaults, handle) {
            Some(i) => i,
            None => {
                proof {
                    if old(self)@.vaults.contains_key(handle) {
                        let j = choose|j: int| 0 <= j < self.vaults@.len() && self.vaults@[j].0 == handle;
                    }
                }
                return 0;
            },
        };
        proof { lemma_assoc_at(self.vaults@, handle_key(), vault_value(), i as int); }
        let ghost before = self.vaults@;
        let mut t: Vec<(u32, Vault)> = Vec::new();
        std::mem::swap(&mut t, &mut self.vaults);
        let (k, mut vault) = t.remove(i);
        let res = vault.unlock(password);
        proof { lemma_assoc_update(before, handle_key(), vault_value(), i as int, (k, vault)); }
        t.insert(i, (k, vault));
        proof {
            assert(t@ =~= before.update(i as int, (k, vault)));
            assert forall|a: int, b: int|
                0 <= a < t@.len() && 0 <= b < self.sessions@.len() implies #[trigger] t@[a].0
                != #[trigger] self.sessions@[b].0 by {
                assert(t@[a].0 == before[a].0);
            }
            assert forall|a: int| 0 <= a < t@.len() implies 1 <= #[trigger] t@[a].0 < self.next by {
                assert(t@[a].0 == before[a].0);
            }
        }
        self.vaults = t;
        proof { use_type_invariant(&*self); self.lemma_handles_ok(); }
        match res {
            Ok(VaultMode::Real) => 1,
            Ok(VaultMode::Decoy) => 2,
            Ok(VaultMode::Panic) => 3,
            Err(_) => 0,
        }
    }

    /// Returns the vault behind `handle` to locked (for when the store it opened could not be
    /// opened); whether there was one.
    pub fn vault_abort_unlock(&mut self, handle: u32) -> (r: bool)
        ensures
            handles_ok(final(self)@),
            r == old(self)@.vaults.contains_key(handle),
            !r ==> final(self)@ == old(self)@,
            r ==> final(self)@ == (ApiView {
                vaults: old(self)@.vaults.insert(handle, VaultView { mode: None, ..old(self)@.vaults[handle] }),
                ..old(self)@
            }),
    {
        proof { use_type_invariant(&*self); self.lemma_handles_ok(); }
        let i = match find_by_u32(&self.vaults, handle) {
            Some(i) => i,
            None => {
                proof {
                    if old(self)@.vaults.contains_key(handle) {
                        let j = choose|j: int| 0 <= j < self.vaults@.len() && self.vaults@[j].0 == handle;
                    }
                }
                return false;
            },
        };
        proof { lemma_assoc_at(self.vaults@, handle_key(), vault_value(), i as int); }
        let ghost before = self.vaults@;
        let mut t: Vec<(u32, Vault)> = Vec::new();
        std::mem::swap(&mut t, &mut self.vaults);
        let (k, mut vault) = t.remove(i);
        vault.abort_unlock();
        proof { lemma_assoc_update(before, handle_key(), vault_value(), i as int, (k, vault)); }
        t.insert(i, (k, vault));
        proof {
            assert(t@ =~= before.update(i as int, (k, vault)));
            assert forall|a: int, b: int|
                0 <= a < t@.len() && 0 <= b < self.sessions@.len() implies #[trigger] t@[a].0
                != #[trigger] self.sessions@[b].0 by {
                assert(t@[a].0 == before[a].0);
            }
            assert forall|a: int| 0 <= a < t@.len() implies 1 <= #[trigger] t@[a].0 < self.next by {
                assert(t@[a].0 == before[a].0);
            }
        }
        self.vaults = t;
        proof { use_type_invariant(&*self); self.lemma_handles_ok(); }
        true
    }

    /// Closes the vault behind `handle`; whether there was one.
    pub fn vault_close(&mut self, handle: u32) -> (r: bool)
        ensures
            handles_ok(final(self)@),
            r == old(self)@.vaults.contains_key(handle),
            final(self)@ == (ApiView { vaults: old(self)@.vaults.remove(handle), ..old(self)@ }),
    {
        proof { use_type_invariant(&*self); self.lemma_handles_ok(); }
        match find_by_u32(&self.vaults, handle) {
            Some(i) => {
                proof { lemma_assoc_at(self.vaults@, handle_key(), vault_value(), i as int); }
                let ghost before = self.vaults@;
                proof { lemma_assoc_remove(before, handle_key(), vault_value(), i as int); }
                let mut t: Vec<(u32, Vault)> = Vec::new();
                std::mem::swap(&mut t, &mut self.vaults);
                let _ = t.remove(i);
                proof {
                    assert(t@ =~= before.remove(i as int));
                    assert forall|a: int| 0 <= a < t@.len() implies #[trigger] t@[a] == (if a < i {
                        before[a]
                    } else {
                        before[a + 1]
                    }) by {}
                    assert forall|a: int, b: int|
                        0 <= a < t@.len() && 0 <= b < self.sessions@.len() implies #[trigger] t@[a].0
                        != #[trigger] self.sessions@[b].0 by {
                        assert(t@[a] == (if a < i { before[a] } else { before[a + 1] }));
                    }
                    assert forall|a: int| 0 <= a < t@.len() implies 1 <= #[trigger] t@[a].0 < self.next by {
                        assert(t@[a] == (if a < i { before[a] } else { before[a + 1] }));
                    }
                }
                self.vaults = t;
                proof { use_type_invariant(&*self); self.lemma_handles_ok(); }
                true
            },
            None => {
                proof {
                    if old(self)@.vaults.contains_key(handle) {
                        let j = choose|j: int| 0 <= j < self.vaults@.len() && self.vaults@[j].0 == handle;
                    }
                    assert(self@.vaults.remove(handle) =~= self@.vaults);
                }
                false
            },
        }
    }

    /// Whether the vault behind `handle` has its real store open; false for an unknown handle.
    pub fn vault_is_real(&self, handle: u32) -> (r: bool)
        ensures
            r == (self@.vaults.contains_key(handle) && self@.vaults[handle].mode == Some(VaultMode::Real)),
    {
        proof { use_type_invariant(self); }
        match find_by_u32(&self.vaults, handle) {
            Some(i) => {
                proof { lemma_assoc_at(self.vaults@, handle_key(), vault_value(), i as int); }
                self.vaults[i].1.is_real()
            },
            None => {
                proof {
                    if self@.vaults.contains_key(handle) {
                        let j = choose|j: int| 0 <= j < self.vaults@.len() && self.vaults@[j].0 == handle;
                    }
                }
                false
            },
        }
    }

    /// Creates a session manager for a fresh random identity and returns its new handle.
    pub fn session_create(&mut self) -> (r: u32)
        requires
            old(self)@.next < u32::MAX,
        ensures
            handles_ok(final(self)@),
            r == old(self)@.next,
            !old(self)@.sessions.contains_key(r),
            final(self)@.next == old(self)@.next + 1,
            final(self)@.vaults == old(self)@.vaults,
            final(self)@.federation == old(self)@.federation,
            final(self)@.sessions.dom() == old(self)@.sessions.dom().insert(r),
            forall|k: u32| k != r && #[trigger] old(self)@.sessions.contains_key(k) ==> final(self)@.sessions[k]
                == old(self)@.sessions[k],
            final(self)@.sessions[r].sessions == Map::<Seq<char>, crate::crypto::ratchet::RatchetView>::empty(),
            final(self)@.sessions[r].identity.0.len() == 32,
            final(self)@.sessions[r].identity.1.len() == 32,
            forall|k: u32| k != r && #[trigger] old(self)@.bundles.contains_key(k) ==> final(self)@.bundles[k]
                == old(self)@.bundles[k],
            final(self)@.sessions[r].signed_prekey is Some,
            final(self)@.bundles[r] matches Some(b) && (b.identity_ed25519@ == ed25519_public(
                final(self)@.sessions[r].identity.0,
            ) && b.identity_x25519@ == x25519_base(final(self)@.sessions[r].identity.1) && b.signed_prekey@
                == x25519_base(final(self)@.sessions[r].signed_prekey->0) && b.signature@ == ed25519_sign(
                final(self)@.sessions[r].identity.0,
                b.signed_prekey@,
            ) && b.signature@.len() == 64),
    {
        let kp = IdentityKeyPair::generate();
        let sm = SessionManager::new(kp);
        let id = self.alloc_id();
        proof {
            use_type_invariant(&*self);
            assert forall|i: int| 0 <= i < self.sessions@.len() implies self.sessions@[i].0 != id by {}
            lemma_assoc_push(self.sessions@, handle_key(), session_value(), (id, sm));
            lemma_assoc_push(self.sessions@, handle_key(), bundle_value(), (id, sm));
        }
        let ghost before = self.sessions@;
        let mut t: Vec<(u32, SessionManager)> = Vec::new();
        std::mem::swap(&mut t, &mut self.sessions);
        t.push((id, sm));
        proof {
            assert(t@ == before.push((id, sm)));
            assert forall|i: int, j: int|
                0 <= i < self.vaults@.len() && 0 <= j < t@.len() implies #[trigger] self.vaults@[i].0
                != #[trigger] t@[j].0 by {
                if j < before.len() {
                    assert(t@[j] == before[j]);
                }
            }
            assert forall|i: int| 0 <= i < t@.len() implies 1 <= #[trigger] t@[i].0 < self.next by {
                if i < before.len() {
                    assert(t@[i] == before[i]);
                }
            }
        }
        self.sessions = t;
        proof { use_type_invariant(&*self); self.lemma_handles_ok(); }
        id
    }

    /// The prekey bundle that the session manager behind `handle` publishes; `None` for an
    /// unknown handle.
    pub fn session_prekey_bundle(&self, handle: u32) -> (r: Option<PreKeyBundle>)
        ensures
            match r {
                Some(b) => self@.bundles.contains_key(handle) && (self@.bundles[handle] matches Some(c)
                    && b.identity_ed25519 == c.identity_ed25519 && b.identity_x25519 == c.identity_x25519
                    && b.signed_prekey == c.signed_prekey && b.signature@ == c.signature@),
                None => !self@.bundles.contains_key(handle) || self@.bundles[handle] is None,
            },
    {
        proof { use_type_invariant(self); }
        match find_by_u32(&self.sessions, handle) {
            Some(i) => {
                proof { lemma_assoc_at(self.sessions@, handle_key(), bundle_value(), i as int); }
                match self.sessions[i].1.our_prekey_bundle() {
                    Some(b) => Some(b.copy()),
                    None => None,
                }
            },
            None => {
                proof {
                    if self@.bundles.contains_key(handle) {
                        let j = choose|j: int| 0 <= j < self.sessions@.len() && self.sessions@[j].0 == handle;
                    }
                }
                None
            },
        }
    }

    /// Starts a session with `peer_id`, the owner of `their_bundle`, as initiator on the
    /// session manager behind `handle` (see `SessionManager::start_as_initiator`) and returns
    /// our ephemeral public key in hex; empty (and no change) for an unknown handle or a bundle
    /// whose signature does not verify.
    pub fn session_start_initiator(&mut self, handle: u32, peer_id: &str, their_bundle: &PreKeyBundle) -> (r: String)
        ensures
            handles_ok(final(self)@),
            !(old(self)@.sessions.contains_key(handle) && bundle_signed(*their_bundle)) ==> r@ == Seq::<char>::empty()
                && final(self)@ == old(self)@,
            old(self)@.sessions.contains_key(handle) && bundle_signed(*their_bundle) ==> exists|e: Seq<u8>, a: Seq<u8>|
                e.len() == 32 && a.len() == 32 && r@ == hex_encode_spec(x25519_base(e)) && final(self)@ == (
                ApiView {
                    sessions: old(self)@.sessions.insert(
                        handle,
                        SessionManagerView {
                            sessions: old(self)@.sessions[handle].sessions.insert(
                                peer_id@,
                                #[trigger] initial_view(
                                    x3dh_initiator_keys(
                                        old(self)@.sessions[handle].identity.1,
                                        e,
                                        their_bundle.signed_prekey@,
                                        their_bundle.identity_x25519@,
                                    ),
                                    true,
                                    a,
                                ),
                            ),
                            ..old(self)@.sessions[handle]
                        },
                    ),
                    ..old(self)@
                }),
    {
        proof { use_type_invariant(&*self); self.lemma_handles_ok(); }
        let i = match find_by_u32(&self.sessions, handle) {
            Some(i) => i,
            None => {
                proof {
                    if old(self)@.sessions.contains_key(handle) {
                        let j = choose|j: int| 0 <= j < self.sessions@.len() && self.sessions@[j].0 == handle;
                    }
                }
                return String::new();
            },
        };
        proof {
            lemma_assoc_at(self.sessions@, handle_key(), session_value(), i as int);
            lemma_assoc_at(self.sessions@, handle_key(), bundle_value(), i as int);
        }
        let ghost before = self.sessions@;
        let mut t: Vec<(u32, SessionManager)> = Vec::new();
        std::mem::swap(&mut t, &mut self.sessions);
        let (k, mut sm) = t.remove(i);
        let res = sm.start_as_initiator(peer_id, their_bundle);
        proof {
            lemma_assoc_update(before, handle_key(), session_value(), i as int, (k, sm));
            lemma_assoc_update(before, handle_key(), bundle_value(), i as int, (k, sm));
        }
        t.insert(i, (k, sm));
        proof {
            assert(t@ =~= before.update(i as int, (k, sm)));
            assert forall|a: int, b: int|
                0 <= a < self.vaults@.len() && 0 <= b < t@.len() implies #[trigger] self.vaults@[a].0
                != #[trigger] t@[b].0 by {
                assert(t@[b].0 == before[b].0);
            }
            assert forall|a: int| 0 <= a < t@.len() implies 1 <= #[trigger] t@[a].0 < self.next by {
                assert(t@[a].0 == before[a].0);
            }
        }
        self.sessions = t;
        proof {
            use_type_invariant(&*self);
            self.lemma_handles_ok();
            assert(self@.bundles =~= old(self)@.bundles);
            if res is Err {
                assert(self@.sessions =~= old(self)@.sessions);
            }
        }
        match res {
            Ok(eph) => hex_encode(eph.as_slice()),
            Err(_) => String::new(),
        }
    }

    /// Whether `session_encrypt(handle, peer_id, ..)` can count one more message.
    pub fn session_can_encrypt(&self, handle: u32, peer_id: &str) -> (r: bool)
        ensures
            r == (self@.sessions.contains_key(handle) && self@.sessions[handle].sessions.contains_key(peer_id@)
                ==> (self@.sessions[handle].sessions[peer_id@].send_ck is Some
                ==> self@.sessions[handle].sessions[peer_id@].send_n < u32::MAX)),
    {
        proof { use_type_invariant(self); }
        match find_by_u32(&self.sessions, handle) {
            Some(i) => {
                proof { lemma_assoc_at(self.sessions@, handle_key(), session_value(), i as int); }
                self.sessions[i].1.can_encrypt_for(peer_id)
            },
            None => {
                proof {
                    if self@.sessions.contains_key(handle) {
                        let j = choose|j: int| 0 <= j < self.sessions@.len() && self.sessions@[j].0 == handle;
                    }
                }
                true
            },
        }
    }

    /// Encrypts `plaintext` for `peer_id` on the session manager behind `handle` (see
    /// `SessionManager::encrypt_for`), with the initiator key that `eph_hex` spells when it is
    /// 64 hex digits. `None` for an unknown handle or peer, or when encryption fails.
    pub fn session_encrypt(&mut self, handle: u32, peer_id: &str, plaintext: &str, eph_hex: &str) -> (r: Option<
        crate::crypto::session::EncryptedMessage,
    >)
        requires
            old(self)@.sessions.contains_key(handle) && old(self)@.sessions[handle].sessions.contains_key(peer_id@)
                ==> (old(self)@.sessions[handle].sessions[peer_id@].send_ck is Some
                ==> old(self)@.sessions[handle].sessions[peer_id@].send_n < u32::MAX),
        ensures
            handles_ok(final(self)@),
            !(old(self)@.sessions.contains_key(handle) && old(self)@.sessions[handle].sessions.contains_key(peer_id@))
                ==> r is None && final(self)@ == old(self)@,
            old(self)@.sessions.contains_key(handle) && old(self)@.sessions[handle].sessions.contains_key(peer_id@)
                ==> exists|
                fin: RatchetView,
                inner: Result<crate::crypto::session::EncryptedMessage, crate::crypto::aead::AeadError>,
                eph: Option<[u8; 32]>,
            |
                opt_key_view(eph) == eph_from_hex(eph_hex.spec_bytes()) && #[trigger] message_outcome(
                    old(self)@.sessions[handle].sessions[peer_id@],
                    plaintext.spec_bytes(),
                    crate::crypto::session::session_aad(),
                    fin,
                    inner,
                    eph,
                ) && r == (match inner {
                    Ok(m) => Some(m),
                    Err(_) => None,
                }) && final(self)@ == (ApiView {
                    sessions: old(self)@.sessions.insert(
                        handle,
                        SessionManagerView {
                            sessions: old(self)@.sessions[handle].sessions.insert(peer_id@, fin),
                            ..old(self)@.sessions[handle]
                        },
                    ),
                    ..old(self)@
                }),
    {
        proof { use_type_invariant(&*self); self.lemma_handles_ok(); }
        let i = match find_by_u32(&self.sessions, handle) {
            Some(i) => i,
            None => {
                proof {
                    if old(self)@.sessions.contains_key(handle) {
                        let j = choose|j: int| 0 <= j < self.sessions@.len() && self.sessions@[j].0 == handle;
                    }
                }
                return None;
            },
        };
        let eph = parse_eph_hex(eph_hex);
        proof {
            lemma_assoc_at(self.sessions@, handle_key(), session_value(), i as int);
            lemma_assoc_at(self.sessions@, handle_key(), bundle_value(), i as int);
        }
        let ghost before = self.sessions@;
        let mut t: Vec<(u32, SessionManager)> = Vec::new();
        std::mem::swap(&mut t, &mut self.sessions);
        let (k, mut sm) = t.remove(i);
        let res = sm.encrypt_for(peer_id, plaintext.as_bytes(), eph);
        proof {
            lemma_assoc_update(before, handle_key(), session_value(), i as int, (k, sm));
            lemma_assoc_update(before, handle_key(), bundle_value(), i as int, (k, sm));
        }
        t.insert(i, (k, sm));
        proof {
            assert(t@ =~= before.update(i as int, (k, sm)));
            assert forall|a: int, b: int|
                0 <= a < self.vaults@.len() && 0 <= b < t@.len() implies #[trigger] self.vaults@[a].0
                != #[trigger] t@[b].0 by {
                assert(t@[b].0 == before[b].0);
            }
            assert forall|a: int| 0 <= a < t@.len() implies 1 <= #[trigger] t@[a].0 < self.next by {
                assert(t@[a].0 == before[a].0);
            }
        }
        self.sessions = t;
        proof {
            use_type_invariant(&*self);
            self.lemma_handles_ok();
            assert(self@.bundles =~= old(self)@.bundles);
            if !old(self)@.sessions[handle].sessions.contains_key(peer_id@) {
                assert(self@.sessions =~= old(self)@.sessions);
            }
        }
        match res {
            Ok(m) => Some(m),
            Err(_) => None,
        }
    }

    /// The bootstrap addresses under the current federation settings (see `bootstrap_addrs`).
    pub fn federation_bootstrap_addrs(&self) -> (r: Vec<String>)
        ensures
            crate::network::federation::texts(r@) == crate::network::federation::bootstrap_spec(self@.federation),
    {
        crate::network::federation::bootstrap_addrs(&self.federation)
    }

    /// A copy of the federation settings.
    pub fn federation_get(&self) -> (r: FederationConfig)
        ensures
            config_view(r) == config_view(self@.federation),
    {
        crate::network::federation::get_config(&self.federation)
    }

    /// Replaces the federation settings with `parsed` when it is there (settings that parsed);
    /// whether it did.
    pub fn federation_set_json(&mut self, parsed: Option<FederationConfig>) -> (r: bool)
        ensures
            r == parsed is Some,
            final(self)@ == (ApiView {
                federation: match parsed {
                    Some(c) => c,
                    None => old(self)@.federation,
                },
                ..old(self)@
            }),
            handles_ok(final(self)@),
    {
        proof { use_type_invariant(&*self); self.lemma_handles_ok(); }
        match parsed {
            Some(c) => {
                self.federation = c;
                proof { use_type_invariant(&*self); self.lemma_handles_ok(); }
                true
            },
            None => false,
        }
    }

    /// Whether mesh discovery runs under the current federation settings.
    pub fn federation_mesh_enabled(&self) -> (r: bool)
        ensures
            r == mesh_enabled_spec(self@.federation),
    {
        mesh_enabled(&self.federation)
    }
}

/// The key that `eph_hex` spells (see `eph_from_hex`).
fn parse_eph_hex(eph_hex: &str) -> (r: Option<[u8; 32]>)
    ensures
        opt_key_view(r) == eph_from_hex(eph_hex.spec_bytes()),
{
    if eph_hex.as_bytes().len() == 64 {
        match hex_decode(eph_hex) {
            Some(b) => if b.len() == 32 {
                Some(to_array32(b.as_slice()))
            } else {
                None
            },
            None => None,
        }
    } else {
        None
    }
}

/// The peer id of the stored identity, or of a fresh one when nothing is stored; the key
/// material to store goes with a fresh identity. The peer id is empty when the stored key
/// material is too short.
pub fn identity_create(stored: Option<&[u8]>) -> (r: (String, Option<Vec<u8>>))
    ensures
        match stored {
            Some(data) => r.1 is None && (data@.len() < 32 ==> r.0@ == Seq::<char>::empty()) && (data@.len() >= 32
                ==> r.0@ == peer_id_spec(ed25519_public(key_material_secrets(data@).0))),
            None => r.1 matches Some(bytes) && (bytes@.len() == 64 && r.0@ == peer_id_spec(
                ed25519_public(bytes@.subrange(0, 32)),
            )),
        },
{
    match stored {
        Some(data) => match Identity::load_bytes(data) {
            Ok(id) => (String::from_str(id.peer_id()), None),
            Err(_) => (String::new(), None),
        },
        None => {
            let id = Identity::generate();
            let bytes = id.key_bytes();
            assert(bytes@.subrange(0, 32) =~= ed_secret_of(id@));
            (String::from_str(id.peer_id()), Some(bytes))
        },
    }
}

/// The version of this library, as text.
pub fn core_version() -> (r: String)
    ensures
        r@ == crate::VERSION@,
{
    String::from_str(crate::VERSION)
}

/// The interface after `vault_unlock(h, p)` for each password `p` of `pws` in turn (as each
/// call's contract states it).
pub open spec fn api_unlock_after(v: ApiView, h: u32, pws: Seq<Seq<char>>) -> ApiView
    decreases pws.len(),
{
    if pws.len() == 0 {
        v
    } else {
        let w = api_unlock_after(v, h, pws.drop_last());
        ApiView { vaults: w.vaults.insert(h, unlock_spec(w.vaults[h], pws.last()).0), ..w }
    }
}

proof fn lemma_api_unlock_after(v: ApiView, h: u32, pws: Seq<Seq<char>>)
    requires
        v.vaults.contains_key(h),
    ensures
        api_unlock_after(v, h, pws).vaults.contains_key(h),
        api_unlock_after(v, h, pws).vaults[h] == crate::security::vault::unlock_after(v.vaults[h], pws),
    decreases pws.len(),
{
    if pws.len() > 0 {
        lemma_api_unlock_after(v, h, pws.drop_last());
    }
}

/// Through the handle interface: after a sequence of `vault_unlock(h, _)` calls on a locked
/// vault, `vault_is_real(h)` holds exactly when one of those calls answered 1.
pub proof fn law_vault_real_after_unlocks(v: ApiView, h: u32, pws: Seq<Seq<char>>)
    requires
        v.vaults.contains_key(h),
        v.vaults[h].mode is None,
    ensures
        (api_unlock_after(v, h, pws).vaults[h].mode == Some(VaultMode::Real)) <==> exists|i: int|
            0 <= i < pws.len() && unlock_code(
                unlock_spec(#[trigger] api_unlock_after(v, h, pws.take(i)).vaults[h], pws[i]).1,
            ) == 1,
{
    let vv = v.vaults[h];
    lemma_api_unlock_after(v, h, pws);
    crate::security::vault::law_real_after_history(vv, pws);
    assert forall|i: int| 0 <= i < pws.len() implies (unlock_code(
        unlock_spec(#[trigger] api_unlock_after(v, h, pws.take(i)).vaults[h], pws[i]).1,
    ) == 1) == (unlock_spec(crate::security::vault::unlock_after(vv, pws.take(i)), pws[i]).1
        == Ok::<VaultMode, crate::security::vault::VaultError>(VaultMode::Real)) by {
        lemma_api_unlock_after(v, h, pws.take(i));
    }
    if exists|i: int|
        0 <= i < pws.len() && unlock_code(
            unlock_spec(#[trigger] api_unlock_after(v, h, pws.take(i)).vaults[h], pws[i]).1,
        ) == 1 {
        let i = choose|i: int|
            0 <= i < pws.len() && unlock_code(
                unlock_spec(#[trigger] api_unlock_after(v, h, pws.take(i)).vaults[h], pws[i]).1,
            ) == 1;
        assert(unlock_spec(crate::security::vault::unlock_after(vv, pws.take(i)), pws[i]).1
            == Ok::<VaultMode, crate::security::vault::VaultError>(VaultMode::Real));
    }
    if api_unlock_after(v, h, pws).vaults[h].mode == Some(VaultMode::Real) {
        let i = choose|i: int|
            0 <= i < pws.len() && #[trigger] unlock_spec(
                crate::security::vault::unlock_after(vv, pws.take(i)),
                pws[i],
            ).1 == Ok::<VaultMode, crate::security::vault::VaultError>(VaultMode::Real);
        assert(unlock_code(unlock_spec(api_unlock_after(v, h, pws.take(i)).vaults[h], pws[i]).1) == 1);
    }
}

} // verus!
