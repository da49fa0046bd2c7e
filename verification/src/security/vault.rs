//! Hidden vault: master, duress and decoy passwords.
//! The master password opens the real store; the duress password wipes everything;
//! any other password opens a decoy store.
use vstd::prelude::*;
use vstd::string::*;
use argon2::password_hash::{PasswordHasher, PasswordVerifier};
use crate::crypto::primitives::os_random_32;

verus! {

/// Argon2id (default parameters) PHC hash string of `password` with salt `salt`.
pub uninterp spec fn argon2_hash(password: Seq<u8>, salt: Seq<char>) -> Seq<char>;

/// Argon2 check of `password` against PHC string `phc`: `None` when `phc` does not parse.
pub uninterp spec fn argon2_check(password: Seq<u8>, phc: Seq<char>) -> Option<bool>;

/// The B64 salt string (`SaltString::encode_b64`) of raw salt bytes.
pub uninterp spec fn b64_salt(bytes: Seq<u8>) -> Seq<char>;

/// `SaltString::encode_b64` of 16 raw bytes, as text: the named salt. Sixteen bytes always
/// encode (22 characters, within the 64-character limit).
#[verifier::external_body]
fn salt_from_bytes(bytes: &[u8; 16]) -> (r: String)
    ensures
        r@ == b64_salt(bytes@),
{
    argon2::password_hash::SaltString::encode_b64(bytes).unwrap().as_str().to_string()
}

/// A fresh salt as `SaltString::generate` makes it: 16 bytes of the operating system
/// generator, B64-encoded.
fn random_salt() -> (r: String)
    ensures
        exists|b: Seq<u8>| b.len() == 16 && r@ == #[trigger] b64_salt(b),
{
    let raw = os_random_32();
    let mut b: [u8; 16] = [0u8; 16];
    let mut i: usize = 0;
    while i < 16
        invariant
            i <= 16,
        decreases 16 - i,
    {
        b[i] = raw[i];
        i = i + 1;
    }
    salt_from_bytes(&b)
}

/// `Argon2::default().hash_password` of `password` with the salt `salt`, as its PHC string:
/// the named hash; `None` when hashing fails. The crate's source fails only on a salt that
/// does not parse or decodes to fewer than 8 bytes, or a password over 2^32 - 1 bytes, so the
/// B64 salt of 16 bytes and a shorter password always hash, and a longer password never does.
#[verifier::external_body]
fn argon2_hash_password(password: &[u8], salt: &str) -> (r: Option<String>)
    ensures
        r is Some ==> r->0@ == argon2_hash(password@, salt@),
        password@.len() > 0xFFFF_FFFF ==> r is None,
        forall|b: Seq<u8>|
            b.len() == 16 && salt@ == #[trigger] b64_salt(b) && password@.len() <= 0xFFFF_FFFF ==> r is Some,
{
    let salt = argon2::password_hash::SaltString::from_b64(salt).ok()?;
    argon2::Argon2::default().hash_password(password, &salt).ok().map(|h| h.to_string())
}

/// `PasswordHash::new(phc)` then `Argon2::default().verify_password`: the named check. A PHC
/// string that `hash_password` wrote (under the B64 salt of 16 bytes) parses, and the hash of a
/// password of at most 2^32 - 1 bytes with any salt verifies that password (the check
/// recomputes it; a longer password is refused before any check).
#[verifier::external_body]
fn argon2_verify_password(password: &[u8], phc: &str) -> (r: Option<bool>)
    ensures
        r == argon2_check(password@, phc@),
        forall|salt: Seq<char>|
            password@.len() <= 0xFFFF_FFFF && phc@ == #[trigger] argon2_hash(password@, salt) ==> r == Some(true),
        forall|pw: Seq<u8>, b: Seq<u8>|
            b.len() == 16 && phc@ == #[trigger] argon2_hash(pw, b64_salt(b)) ==> r is Some,
{
    let parsed = argon2::password_hash::PasswordHash::new(phc).ok()?;
    Some(argon2::Argon2::default().verify_password(password, &parsed).is_ok())
}

/// What an unlock opened.
#[derive(Debug, Clone, Copy, PartialEq, Eq, Structural)]
pub enum VaultMode {
    Real,
    Decoy,
    Panic,
}

/// What a duress unlock does besides wiping.
#[derive(Debug, Clone, Copy)]
pub enum DuressAction {
    WipeAndExit,
    WipeAndDecoy,
}

/// Why a vault operation failed.
#[derive(Debug, Clone, PartialEq, Eq)]
pub enum VaultError {
    Io(String),
    Db(String),
    Crypto,
    Locked,
    AlreadyUnlocked,
}

/// Where the vault keeps its stores and its two passwords.
pub struct VaultConfig {
    pub db_path: String,
    pub master_password: String,
    pub duress_password: String,
}

/// The state of a vault as values.
pub struct VaultView {
    pub db_path: Seq<char>,
    pub master_password: Seq<char>,
    pub duress_password: Seq<char>,
    pub mode: Option<VaultMode>,
    pub master_hash: Seq<char>,
    pub duress_hash: Seq<char>,
    pub salt: Seq<char>,
}

/// The vault: its configuration, the password hashes and the mode it was unlocked in.
pub struct Vault {
    config: VaultConfig,
    mode: Option<VaultMode>,
    master_hash: String,
    duress_hash: String,
    salt: String,
    salt_bytes: Ghost<Seq<u8>>,
    master_input: Ghost<Seq<u8>>,
    duress_input: Ghost<Seq<u8>>,
}

impl View for Vault {
    type V = VaultView;

    closed spec fn view(&self) -> VaultView {
        VaultView {
            db_path: self.config.db_path@,
            master_password: self.config.master_password@,
            duress_password: self.config.duress_password@,
            mode: self.mode,
            master_hash: self.master_hash@,
            duress_hash: self.duress_hash@,
            salt: self.salt@,
        }
    }
}

/// The bytes of a password.
pub open spec fn pw_bytes(p: Seq<char>) -> Seq<u8> {
    vstd::utf8::encode_utf8(p)
}

/// The state after a panic wipe: both passwords erased, the mode `Panic`.
pub open spec fn wiped(v: VaultView) -> VaultView {
    VaultView { master_password: Seq::empty(), duress_password: Seq::empty(), mode: Some(VaultMode::Panic), ..v }
}

/// `unlock`'s outcome: `AlreadyUnlocked` when unlocked; `Crypto` when a stored hash does not
/// parse; the duress password wipes (`Panic`); the master password opens the real store; any
/// other password opens the decoy store. The duress check comes first.
pub open spec fn unlock_spec(v: VaultView, password: Seq<char>) -> (VaultView, Result<VaultMode, VaultError>) {
    if v.mode is Some {
        (v, Err(VaultError::AlreadyUnlocked))
    } else {
        match argon2_check(pw_bytes(password), v.duress_hash) {
            None => (v, Err(VaultError::Crypto)),
            Some(true) => (wiped(v), Ok(VaultMode::Panic)),
            Some(false) => match argon2_check(pw_bytes(password), v.master_hash) {
                None => (v, Err(VaultError::Crypto)),
                Some(true) => (VaultView { mode: Some(VaultMode::Real), ..v }, Ok(VaultMode::Real)),
                Some(false) => (VaultView { mode: Some(VaultMode::Decoy), ..v }, Ok(VaultMode::Decoy)),
            },
        }
    }
}

fn zeroized() -> (r: String)
    ensures
        r@ == Seq::<char>::empty(),
{
    String::new()
}

impl Vault {
    /// The salt is the B64 salt of 16 bytes, and both stored hashes are Argon2 PHC strings made
    /// under it.
    #[verifier::type_invariant]
    spec fn hashes_made_here(self) -> bool {
        &&& self.salt_bytes@.len() == 16
        &&& self.salt@ == b64_salt(self.salt_bytes@)
        &&& self.master_hash@ == argon2_hash(self.master_input@, self.salt@)
        &&& self.duress_hash@ == argon2_hash(self.duress_input@, self.salt@)
    }

    /// A locked vault for `config`: both passwords hashed with Argon2id under one fresh random
    /// salt. `Crypto` when hashing fails.
    pub fn new(config: VaultConfig) -> (r: Result<Self, VaultError>)
        ensures
            r matches Err(e) ==> e == VaultError::Crypto,
            r is Ok <==> (pw_bytes(config.master_password@).len() <= 0xFFFF_FFFF && pw_bytes(
                config.duress_password@,
            ).len() <= 0xFFFF_FFFF),
            r matches Ok(v) ==> {
                &&& v@.db_path == config.db_path@
                &&& v@.master_password == config.master_password@
                &&& v@.duress_password == config.duress_password@
                &&& v@.mode is None
                &&& v@.master_hash == argon2_hash(pw_bytes(config.master_password@), v@.salt)
                &&& v@.duress_hash == argon2_hash(pw_bytes(config.duress_password@), v@.salt)
            },
    {
        let salt = random_salt();
        let master_hash = match argon2_hash_password(config.master_password.as_str().as_bytes(), salt.as_str()) {
            Some(h) => h,
            None => return Err(VaultError::Crypto),
        };
        let duress_hash = match argon2_hash_password(config.duress_password.as_str().as_bytes(), salt.as_str()) {
            Some(h) => h,
            None => return Err(VaultError::Crypto),
        };
        let ghost mp = pw_bytes(config.master_password@);
        let ghost dp = pw_bytes(config.duress_password@);
        assert(master_hash@ == argon2_hash(mp, salt@));
        assert(duress_hash@ == argon2_hash(dp, salt@));
        let ghost b = choose|b: Seq<u8>| b.len() == 16 && salt@ == b64_salt(b);
        Ok(Vault {
            config,
            mode: None,
            master_hash,
            duress_hash,
            salt,
            salt_bytes: Ghost(b),
            master_input: Ghost(mp),
            duress_input: Ghost(dp),
        })
    }

    /// Unlocks with `password` (see `unlock_spec`). The duress password of this vault always
    /// gives `Panic`; its master password gives `Real` unless it also passes the duress check.
    pub fn unlock(&mut self, password: &str) -> (r: Result<VaultMode, VaultError>)
        ensures
            (final(self)@, r) == unlock_spec(old(self)@, password@),
            old(self)@.mode is None ==> r is Ok,
            forall|salt: Seq<char>|
                old(self)@.mode is None && pw_bytes(password@).len() <= 0xFFFF_FFFF && old(self)@.master_hash == #[trigger] argon2_hash(pw_bytes(password@), salt)
                    ==> r == Ok::<VaultMode, VaultError>(VaultMode::Real) || r == Ok::<VaultMode, VaultError>(
                    VaultMode::Panic,
                ),
            forall|salt: Seq<char>|
                old(self)@.mode is None && pw_bytes(password@).len() <= 0xFFFF_FFFF && old(self)@.duress_hash == #[trigger] argon2_hash(pw_bytes(password@), salt)
                    ==> r == Ok::<VaultMode, VaultError>(VaultMode::Panic),
            forall|salt: Seq<char>|
                old(self)@.mode is None && pw_bytes(password@).len() <= 0xFFFF_FFFF && old(self)@.master_hash == #[trigger] argon2_hash(pw_bytes(password@), salt)
                    && argon2_check(pw_bytes(password@), old(self)@.duress_hash) == Some(false) ==> r == Ok::<
                    VaultMode,
                    VaultError,
                >(VaultMode::Real),
    {
        proof { use_type_invariant(&*self); }
        if self.mode.is_some() {
            return Err(VaultError::AlreadyUnlocked);
        }
        let pw = password.as_bytes();
        match argon2_verify_password(pw, self.duress_hash.as_str()) {
            None => return Err(VaultError::Crypto),
            Some(true) => {
                let _ = self.panic_wipe();
                return Ok(VaultMode::Panic);
            },
            Some(false) => {},
        }
        match argon2_verify_password(pw, self.master_hash.as_str()) {
            None => Err(VaultError::Crypto),
            Some(true) => {
                self.mode = Some(VaultMode::Real);
                Ok(VaultMode::Real)
            },
            Some(false) => {
                self.mode = Some(VaultMode::Decoy);
                Ok(VaultMode::Decoy)
            },
        }
    }

    /// Returns an unlocked vault to locked, for when its store could not be opened.
    pub fn abort_unlock(&mut self)
        ensures
            final(self)@ == (VaultView { mode: None, ..old(self)@ }),
    {
        proof { use_type_invariant(&*self); }
        self.mode = None;
    }

    /// The mode the vault was unlocked in.
    pub fn mode(&self) -> (r: Option<VaultMode>)
        ensures
            r == self@.mode,
    {
        self.mode
    }

    /// Whether the real store is open.
    pub fn is_real(&self) -> (r: bool)
        ensures
            r == (self@.mode == Some(VaultMode::Real)),
    {
        match self.mode {
            Some(VaultMode::Real) => true,
            _ => false,
        }
    }

    /// Erases both passwords and sets the mode to `Panic` (the stores are wiped by the caller).
    pub fn panic_wipe(&mut self) -> (r: Result<(), VaultError>)
        ensures
            r is Ok,
            final(self)@ == wiped(old(self)@),
    {
        proof { use_type_invariant(&*self); }
        self.config.master_password = zeroized();
        self.config.duress_password = zeroized();
        self.mode = Some(VaultMode::Panic);
        Ok(())
    }

    /// Where the stores live.
    pub fn db_path(&self) -> (r: &str)
        ensures
            r@ == self@.db_path,
    {
        self.config.db_path.as_str()
    }
}

/// The state after a vault in state `v` is unlocked with each password of `pws` in turn.
pub open spec fn unlock_after(v: VaultView, pws: Seq<Seq<char>>) -> VaultView
    decreases pws.len(),
{
    if pws.len() == 0 {
        v
    } else {
        unlock_spec(unlock_after(v, pws.drop_last()), pws.last()).0
    }
}

/// The real store is open after a history of unlock attempts on a locked vault exactly when one
/// of them answered `Real`; the first unlock that succeeds decides the mode, and every later
/// attempt is refused without change.
pub proof fn law_real_after_history(v: VaultView, pws: Seq<Seq<char>>)
    requires
        v.mode is None,
    ensures
        unlock_after(v, pws).mode == Some(VaultMode::Real) <==> exists|i: int|
            0 <= i < pws.len() && #[trigger] unlock_spec(unlock_after(v, pws.take(i)), pws[i]).1 == Ok::<
                VaultMode,
                VaultError,
            >(VaultMode::Real),
    decreases pws.len(),
{
    if pws.len() > 0 {
        let q = pws.drop_last();
        law_real_after_history(v, q);
        let w = unlock_after(v, q);
        let last = pws.len() - 1;
        assert(pws.take(last) =~= q);
        assert forall|i: int| 0 <= i < last implies pws.take(i) == q.take(i) && pws[i] == q[i] by {
            assert(pws.take(i) =~= q.take(i));
        }
        if unlock_spec(w, pws[last]).1 == Ok::<VaultMode, VaultError>(VaultMode::Real) {
            assert(unlock_spec(unlock_after(v, pws.take(last)), pws[last]).1 == Ok::<VaultMode, VaultError>(
                VaultMode::Real,
            ));
        }
        if exists|i: int|
            0 <= i < pws.len() && #[trigger] unlock_spec(unlock_after(v, pws.take(i)), pws[i]).1 == Ok::<
                VaultMode,
                VaultError,
            >(VaultMode::Real) {
            let i = choose|i: int|
                0 <= i < pws.len() && #[trigger] unlock_spec(unlock_after(v, pws.take(i)), pws[i]).1 == Ok::<
                    VaultMode,
                    VaultError,
                >(VaultMode::Real);
            if i < last {
                assert(unlock_spec(unlock_after(v, q.take(i)), q[i]).1 == Ok::<VaultMode, VaultError>(VaultMode::Real));
            }
        }
    }
}

} // verus!
