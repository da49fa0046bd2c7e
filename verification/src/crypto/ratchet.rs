//! Double Ratchet (Signal style).
use vstd::prelude::*;
use crate::bytes::{append_bytes, be_bytes_u32, to_array32, u32_to_be_bytes};
use crate::crypto::aead::{bytes_result, decrypt, decrypt_auto_spec, encrypt, is_sealed, seal_accepts, AeadError, CipherSuite};
use crate::crypto::keys::{EphemeralKeyPair, SessionKeys};
use crate::crypto::primitives::{hkdf_sha256, hkdf_sha256_expand, x25519_base, x25519_shared};

verus! {

/// How many message keys one received message may skip over.
pub const MAX_SKIP: u32 = 100;

/// The header sent with each ratchet message.
#[derive(Clone, Debug)]
pub struct MessageHeader {
    pub dh_public: [u8; 32],
    pub n: u32,
    pub pn: u32,
}

/// A message key kept for a message that has not arrived yet.
pub struct SkippedKey {
    pub dh: [u8; 32],
    pub n: u32,
    pub key: [u8; 32],
}

/// The state of a ratchet session, as values.
pub struct RatchetView {
    pub root: Seq<u8>,
    pub send_ck: Option<Seq<u8>>,
    pub send_n: u32,
    pub recv_ck: Option<Seq<u8>>,
    pub recv_n: u32,
    pub prev_recv_n: u32,
    /// The secret of the current sending Diffie-Hellman key pair.
    pub dh_send: Option<Seq<u8>>,
    pub dh_recv: Option<Seq<u8>>,
    /// Kept message keys by (sender Diffie-Hellman public key, message number).
    pub skipped: Map<(Seq<u8>, u32), Seq<u8>>,
}

/// `LibertyCK`: HKDF info of the chain step.
pub open spec fn ck_info() -> Seq<u8> {
    seq![76u8, 105, 98, 101, 114, 116, 121, 67, 75]
}

/// `LibertyRK`: HKDF info of the root step.
pub open spec fn rk_info() -> Seq<u8> {
    seq![76u8, 105, 98, 101, 114, 116, 121, 82, 75]
}

/// Chain step: (message key, next chain key) from a chain key.
pub open spec fn kdf_ck_spec(ck: Seq<u8>) -> (Seq<u8>, Seq<u8>) {
    let h = hkdf_sha256(None, ck, ck_info(), 64);
    (h.subrange(0, 32), h.subrange(32, 64))
}

/// Root step: (new root key, chain key) from the root key and a Diffie-Hellman output.
pub open spec fn kdf_rk_spec(root: Seq<u8>, dh_out: Seq<u8>) -> (Seq<u8>, Seq<u8>) {
    let h = hkdf_sha256(Some(root), dh_out, rk_info(), 64);
    (h.subrange(0, 32), h.subrange(32, 64))
}

/// The associated data a message is sealed with: the caller's, the header key, the number.
pub open spec fn ratchet_aad(aad: Seq<u8>, dh_public: Seq<u8>, n: u32) -> Seq<u8> {
    aad + dh_public + be_bytes_u32(n)
}

/// The public key a session announces in its headers: that of its sending key pair, or zeros.
pub open spec fn header_public(s: RatchetView) -> Seq<u8> {
    match s.dh_send {
        Some(sk) => x25519_base(sk),
        None => Seq::new(32, |i: int| 0u8),
    }
}

/// The state a session starts in.
pub open spec fn initial_view(keys: (Seq<u8>, Seq<u8>, Seq<u8>), initiator: bool, dh: Seq<u8>) -> RatchetView {
    RatchetView {
        root: keys.2,
        send_ck: if initiator { Some(keys.0) } else { None },
        send_n: 0,
        recv_ck: if initiator { None } else { Some(keys.1) },
        recv_n: 0,
        prev_recv_n: 0,
        dh_send: if initiator { Some(dh) } else { None },
        dh_recv: None,
        skipped: Map::empty(),
    }
}

/// State after sending one message (when there is a sending chain).
pub open spec fn encrypt_next(s: RatchetView) -> RatchetView {
    RatchetView {
        send_ck: Some(kdf_ck_spec(s.send_ck->0).1),
        send_n: (s.send_n + 1) as u32,
        ..s
    }
}

/// Diffie-Hellman ratchet step on a header key `their`, with fresh sending secret `fresh`.
pub open spec fn dh_ratchet_spec(s: RatchetView, their: Seq<u8>, fresh: Seq<u8>) -> RatchetView {
    let s1 = RatchetView { prev_recv_n: s.recv_n, recv_n: 0, send_n: 0, dh_recv: Some(their), ..s };
    let s2 = match s.dh_send {
        Some(ds) => {
            let k = kdf_rk_spec(s1.root, x25519_shared(ds, their));
            RatchetView { root: k.0, recv_ck: Some(k.1), ..s1 }
        },
        None => s1,
    };
    let k2 = kdf_rk_spec(s2.root, x25519_shared(fresh, their));
    RatchetView { root: k2.0, send_ck: Some(k2.1), dh_send: Some(fresh), ..s2 }
}

/// Advances the receiving chain to message `until`, keeping the skipped message keys under
/// the header key `dh` (when there is one); stops at once when there is no receiving chain.
pub open spec fn skip_chain(
    ck: Option<Seq<u8>>,
    n: u32,
    dh: Option<Seq<u8>>,
    skipped: Map<(Seq<u8>, u32), Seq<u8>>,
    until: u32,
) -> (Option<Seq<u8>>, u32, Map<(Seq<u8>, u32), Seq<u8>>)
    decreases until - n,
{
    if n >= until || ck is None {
        (ck, n, skipped)
    } else {
        let k = kdf_ck_spec(ck->0);
        let sk2 = match dh {
            Some(p) => skipped.insert((p, n), k.0),
            None => skipped,
        };
        skip_chain(Some(k.1), (n + 1) as u32, dh, sk2, until)
    }
}

/// The receiving state after a header with key `dh`: ratcheted when `dh` is new.
pub open spec fn ratchet_if_new(s: RatchetView, dh: Seq<u8>, fresh: Seq<u8>) -> RatchetView {
    if s.dh_recv != Some(dh) {
        dh_ratchet_spec(s, dh, fresh)
    } else {
        s
    }
}

/// State and message key (or error) of receiving the message with header key `dh` and
/// number `n`; `fresh` is the sending secret drawn if a ratchet step happens.
pub open spec fn decrypt_spec(s: RatchetView, dh: Seq<u8>, n: u32, fresh: Seq<u8>) -> (RatchetView, Result<Seq<u8>, AeadError>) {
    if s.skipped.contains_key((dh, n)) {
        (RatchetView { skipped: s.skipped.remove((dh, n)), ..s }, Ok(s.skipped[(dh, n)]))
    } else {
        let s1 = ratchet_if_new(s, dh, fresh);
        if s1.recv_n + MAX_SKIP < n {
            (s1, Err(AeadError::Decrypt))
        } else {
            let c = skip_chain(s1.recv_ck, s1.recv_n, s1.dh_recv, s1.skipped, n);
            let s2 = RatchetView { recv_ck: c.0, recv_n: c.1, skipped: c.2, ..s1 };
            match s2.recv_ck {
                None => (s2, Err(AeadError::Decrypt)),
                Some(ck) => {
                    let k = kdf_ck_spec(ck);
                    (RatchetView { recv_ck: Some(k.1), recv_n: (s2.recv_n + 1) as u32, ..s2 }, Ok(k.0))
                },
            }
        }
    }
}

/// Receiving a message with header key `dh` and number `n` stays within 32-bit counters.
pub open spec fn decrypt_in_range(s: RatchetView, dh: Seq<u8>, n: u32) -> bool {
    s.skipped.contains_key((dh, n)) || {
        let is_new = s.dh_recv != Some(dh);
        let rn: int = if is_new { 0 } else { s.recv_n as int };
        let ck_some = if is_new { s.dh_send is Some || s.recv_ck is Some } else { s.recv_ck is Some };
        &&& rn + MAX_SKIP <= u32::MAX
        &&& (rn + MAX_SKIP < n || !ck_some || (if rn < n { n as int } else { rn }) < u32::MAX)
    }
}

/// Diffie-Hellman with `secret` on `their` key agrees with the other side: whoever holds the
/// secret of `their` computes the same value from the public key of `secret`.
pub open spec fn dh_agrees(secret: Seq<u8>, their: Seq<u8>) -> bool {
    forall|other: Seq<u8>|
        other.len() == 32 && their == #[trigger] x25519_base(other) ==> x25519_shared(secret, their) == x25519_shared(
            other,
            x25519_base(secret),
        )
}

/// The Diffie-Hellman computations of a ratchet step on `their` key agree with the other side,
/// both with the fresh secret and with the current sending secret.
pub open spec fn ratchet_dh_agrees(s: RatchetView, their: Seq<u8>, fresh: Seq<u8>) -> bool {
    &&& dh_agrees(fresh, their)
    &&& s.dh_send matches Some(ds) ==> dh_agrees(ds, their)
}

/// The key of a kept message key.
pub open spec fn entry_key(e: SkippedKey) -> (Seq<u8>, u32) {
    (e.dh@, e.n)
}

/// No two kept message keys share a key.
pub open spec fn keys_unique(s: Seq<SkippedKey>) -> bool {
    forall|i: int, j: int| 0 <= i < s.len() && 0 <= j < s.len() && i != j ==> entry_key(s[i]) != entry_key(s[j])
}

/// Kept message keys as a map.
pub open spec fn skipped_map(s: Seq<SkippedKey>) -> Map<(Seq<u8>, u32), Seq<u8>> {
    Map::new(
        |k: (Seq<u8>, u32)| exists|i: int| 0 <= i < s.len() && entry_key(s[i]) == k,
        |k: (Seq<u8>, u32)| s[choose|i: int| 0 <= i < s.len() && entry_key(s[i]) == k].key@,
    )
}

proof fn lemma_map_at(s: Seq<SkippedKey>, i: int)
    requires
        keys_unique(s),
        0 <= i < s.len(),
    ensures
        skipped_map(s).contains_key(entry_key(s[i])),
        skipped_map(s)[entry_key(s[i])] == s[i].key@,
{
    let k = entry_key(s[i]);
    assert(exists|j: int| 0 <= j < s.len() && entry_key(s[j]) == k);
    let j = choose|j: int| 0 <= j < s.len() && entry_key(s[j]) == k;
    assert(j == i);
}

proof fn lemma_map_push(s: Seq<SkippedKey>, e: SkippedKey)
    requires
        keys_unique(s),
        !skipped_map(s).contains_key(entry_key(e)),
    ensures
        keys_unique(s.push(e)),
        skipped_map(s.push(e)) == skipped_map(s).insert(entry_key(e), e.key@),
{
    let t = s.push(e);
    assert forall|i: int, j: int| 0 <= i < t.len() && 0 <= j < t.len() && i != j implies entry_key(t[i]) != entry_key(t[j]) by {
        if i == s.len() as int {
            assert(!(exists|k: int| 0 <= k < s.len() && entry_key(s[k]) == entry_key(e)));
            assert(t[j] == s[j]);
        } else if j == s.len() as int {
            assert(!(exists|k: int| 0 <= k < s.len() && entry_key(s[k]) == entry_key(e)));
            assert(t[i] == s[i]);
        }
    }
    let m1 = skipped_map(t);
    let m2 = skipped_map(s).insert(entry_key(e), e.key@);
    assert forall|k: (Seq<u8>, u32)| m1.contains_key(k) <==> m2.contains_key(k) by {
        if m1.contains_key(k) {
            let i = choose|i: int| 0 <= i < t.len() && entry_key(t[i]) == k;
            if i < s.len() {
                assert(t[i] == s[i]);
            }
        }
        if m2.contains_key(k) && k != entry_key(e) {
            let i = choose|i: int| 0 <= i < s.len() && entry_key(s[i]) == k;
            assert(t[i] == s[i]);
        }
        if k == entry_key(e) {
            assert(entry_key(t[s.len() as int]) == k);
        }
    }
    assert forall|k: (Seq<u8>, u32)| m1.contains_key(k) implies m1[k] == m2[k] by {
        let i = choose|i: int| 0 <= i < t.len() && entry_key(t[i]) == k;
        lemma_map_at(t, i);
        if i < s.len() {
            assert(t[i] == s[i]);
            lemma_map_at(s, i);
        }
    }
    assert(m1 =~= m2);
}

proof fn lemma_map_update(s: Seq<SkippedKey>, i: int, e: SkippedKey)
    requires
        keys_unique(s),
        0 <= i < s.len(),
        entry_key(e) == entry_key(s[i]),
    ensures
        keys_unique(s.update(i, e)),
        skipped_map(s.update(i, e)) == skipped_map(s).insert(entry_key(e), e.key@),
{
    let t = s.update(i, e);
    assert forall|a: int, b: int| 0 <= a < t.len() && 0 <= b < t.len() && a != b implies entry_key(t[a]) != entry_key(t[b]) by {
        assert(entry_key(t[a]) == entry_key(s[a]));
        assert(entry_key(t[b]) == entry_key(s[b]));
    }
    let m1 = skipped_map(t);
    let m2 = skipped_map(s).insert(entry_key(e), e.key@);
    lemma_map_at(s, i);
    assert forall|k: (Seq<u8>, u32)| m1.contains_key(k) <==> m2.contains_key(k) by {
        if m1.contains_key(k) {
            let a = choose|a: int| 0 <= a < t.len() && entry_key(t[a]) == k;
            assert(entry_key(s[a]) == k);
        }
        if m2.contains_key(k) {
            if k == entry_key(e) {
                assert(entry_key(t[i]) == k);
            } else {
                let a = choose|a: int| 0 <= a < s.len() && entry_key(s[a]) == k;
                assert(entry_key(t[a]) == k);
            }
        }
    }
    assert forall|k: (Seq<u8>, u32)| m1.contains_key(k) implies m1[k] == m2[k] by {
        let a = choose|a: int| 0 <= a < t.len() && entry_key(t[a]) == k;
        lemma_map_at(t, a);
        if a != i {
            lemma_map_at(s, a);
        }
    }
    assert(m1 =~= m2);
}

proof fn lemma_map_remove(s: Seq<SkippedKey>, i: int)
    requires
        keys_unique(s),
        0 <= i < s.len(),
    ensures
        keys_unique(s.remove(i)),
        skipped_map(s.remove(i)) == skipped_map(s).remove(entry_key(s[i])),
{
    let t = s.remove(i);
    let ki = entry_key(s[i]);
    assert forall|a: int| 0 <= a < t.len() implies #[trigger] t[a] == (if a < i { s[a] } else { s[a + 1] }) by {}
    assert forall|a: int, b: int| 0 <= a < t.len() && 0 <= b < t.len() && a != b implies entry_key(t[a]) != entry_key(t[b]) by {
        let a2 = if a < i { a } else { a + 1 };
        let b2 = if b < i { b } else { b + 1 };
        assert(t[a] == s[a2]);
        assert(t[b] == s[b2]);
    }
    let m1 = skipped_map(t);
    let m2 = skipped_map(s).remove(ki);
    assert forall|k: (Seq<u8>, u32)| m1.contains_key(k) <==> m2.contains_key(k) by {
        if m1.contains_key(k) {
            let a = choose|a: int| 0 <= a < t.len() && entry_key(t[a]) == k;
            let a2 = if a < i { a } else { a + 1 };
            assert(t[a] == s[a2]);
            assert(a2 != i);
        }
        if m2.contains_key(k) {
            let a = choose|a: int| 0 <= a < s.len() && entry_key(s[a]) == k;
            assert(a != i);
            let a1 = if a < i { a } else { a - 1 };
            assert(t[a1] == s[a]);
        }
    }
    assert forall|k: (Seq<u8>, u32)| m1.contains_key(k) implies m1[k] == m2[k] by {
        let a = choose|a: int| 0 <= a < t.len() && entry_key(t[a]) == k;
        let a2 = if a < i { a } else { a + 1 };
        assert(t[a] == s[a2]);
        lemma_map_at(t, a);
        lemma_map_at(s, a2);
    }
    assert(m1 =~= m2);
}

/// A Double Ratchet session with one peer.
pub struct RatchetSession {
    root_key: [u8; 32],
    send_chain_key: Option<[u8; 32]>,
    send_n: u32,
    recv_chain_key: Option<[u8; 32]>,
    recv_n: u32,
    prev_recv_n: u32,
    dh_send: Option<EphemeralKeyPair>,
    dh_recv_public: Option<[u8; 32]>,
    skipped_keys: Vec<SkippedKey>,
}

/// The bytes of an optional key.
pub open spec fn opt_key(o: Option<[u8; 32]>) -> Option<Seq<u8>> {
    match o {
        Some(k) => Some(k@),
        None => None,
    }
}

impl View for RatchetSession {
    type V = RatchetView;

    closed spec fn view(&self) -> RatchetView {
        RatchetView {
            root: self.root_key@,
            send_ck: opt_key(self.send_chain_key),
            send_n: self.send_n,
            recv_ck: opt_key(self.recv_chain_key),
            recv_n: self.recv_n,
            prev_recv_n: self.prev_recv_n,
            dh_send: match self.dh_send {
                Some(k) => Some(k@),
                None => None,
            },
            dh_recv: opt_key(self.dh_recv_public),
            skipped: skipped_map(self.skipped_keys@),
        }
    }
}

fn kdf_ck(chain_key: &[u8; 32]) -> (r: ([u8; 32], [u8; 32]))
    ensures
        (r.0@, r.1@) == kdf_ck_spec(chain_key@),
{
    let info: [u8; 9] = [76, 105, 98, 101, 114, 116, 121, 67, 75];
    assert(info@ =~= ck_info());
    let okm = hkdf_sha256_expand(None, chain_key.as_slice(), info.as_slice(), 64);
    let mk = to_array32(&okm.as_slice()[0..32]);
    let next = to_array32(&okm.as_slice()[32..64]);
    (mk, next)
}

fn kdf_rk(root: &[u8; 32], dh_out: &[u8]) -> (r: ([u8; 32], [u8; 32]))
    ensures
        (r.0@, r.1@) == kdf_rk_spec(root@, dh_out@),
{
    let info: [u8; 9] = [76, 105, 98, 101, 114, 116, 121, 82, 75];
    assert(info@ =~= rk_info());
    let okm = hkdf_sha256_expand(Some(root.as_slice()), dh_out, info.as_slice(), 64);
    let new_root = to_array32(&okm.as_slice()[0..32]);
    let chain = to_array32(&okm.as_slice()[32..64]);
    (new_root, chain)
}

fn full_aad(aad: &[u8], dh_public: &[u8; 32], n: u32) -> (r: Vec<u8>)
    ensures
        r@ == ratchet_aad(aad@, dh_public@, n),
{
    let mut v: Vec<u8> = Vec::new();
    append_bytes(&mut v, aad);
    append_bytes(&mut v, dh_public.as_slice());
    let nb = u32_to_be_bytes(n);
    append_bytes(&mut v, nb.as_slice());
    assert(v@ =~= ratchet_aad(aad@, dh_public@, n));
    v
}

fn eq32(a: &[u8; 32], b: &[u8; 32]) -> (r: bool)
    ensures
        r == (a@ == b@),
{
    let mut i: usize = 0;
    while i < 32
        invariant
            i <= 32,
            forall|j: int| 0 <= j < i ==> a@[j] == b@[j],
        decreases 32 - i,
    {
        if a[i] != b[i] {
            return false;
        }
        i = i + 1;
    }
    assert(a@ =~= b@);
    true
}

fn find_skipped(v: &Vec<SkippedKey>, dh: &[u8; 32], n: u32) -> (r: Option<usize>)
    ensures
        r matches Some(i) ==> i < v@.len() && entry_key(v@[i as int]) == (dh@, n),
        r is None ==> forall|i: int| 0 <= i < v@.len() ==> entry_key(v@[i]) != (dh@, n),
{
    let len = v.len();
    let mut i: usize = 0;
    while i < len
        invariant
            len == v@.len(),
            i <= len,
            forall|j: int| 0 <= j < i ==> entry_key(v@[j]) != (dh@, n),
        decreases len - i,
    {
        if v[i].n == n && eq32(&v[i].dh, dh) {
            return Some(i);
        }
        i = i + 1;
    }
    None
}

fn skipped_insert(v: &mut Vec<SkippedKey>, dh: [u8; 32], n: u32, key: [u8; 32])
    requires
        keys_unique(old(v)@),
    ensures
        keys_unique(final(v)@),
        skipped_map(final(v)@) == skipped_map(old(v)@).insert((dh@, n), key@),
{
    let e = SkippedKey { dh, n, key };
    match find_skipped(v, &dh, n) {
        Some(i) => {
            proof { lemma_map_update(v@, i as int, e); }
            v[i] = e;
        },
        None => {
            proof {
                if skipped_map(v@).contains_key((dh@, n)) {
                    let j = choose|j: int| 0 <= j < v@.len() && entry_key(v@[j]) == (dh@, n);
                }
                lemma_map_push(v@, e);
            }
            v.push(e);
        },
    }
}

impl RatchetSession {
    #[verifier::type_invariant]
    spec fn skipped_unique(self) -> bool {
        keys_unique(self.skipped_keys@)
    }

    /// A session from the keys of a handshake. The initiator draws a fresh sending key pair and
    /// sends on the send key; the responder receives on the receive key. The chain key is the root.
    pub fn new(initial: SessionKeys, is_initiator: bool) -> (r: Self)
        ensures
            is_initiator ==> r@.dh_send is Some && r@.dh_send->0.len() == 32,
            r@ == initial_view(
                (initial.send_key@, initial.recv_key@, initial.chain_key@),
                is_initiator,
                if is_initiator { r@.dh_send->0 } else { Seq::empty() },
            ),
    {
        let (dh_send, send_chain_key, recv_chain_key) = if is_initiator {
            (Some(EphemeralKeyPair::generate()), Some(initial.send_key), None)
        } else {
            (None, None, Some(initial.recv_key))
        };
        let s = RatchetSession {
            root_key: initial.chain_key,
            send_chain_key,
            send_n: 0,
            recv_chain_key,
            recv_n: 0,
            prev_recv_n: 0,
            dh_send,
            dh_recv_public: None,
            skipped_keys: Vec::new(),
        };
        assert(s@.skipped =~= Map::<(Seq<u8>, u32), Seq<u8>>::empty());
        s
    }

    /// Whether `encrypt` can count one more message (the sending counter is not exhausted).
    pub fn can_encrypt(&self) -> (r: bool)
        ensures
            r == (self@.send_ck is Some ==> self@.send_n < u32::MAX),
    {
        self.send_chain_key.is_none() || self.send_n < u32::MAX
    }

    /// Encrypts the next message of the sending chain. `Encrypt` without a sending chain (state
    /// unchanged); otherwise the chain and counter advance, the header names the sending public
    /// key, the message number and the previous receiving count, and the ciphertext is sealed
    /// with the chain's message key over `aad`, the header key and the number.
    pub fn encrypt(&mut self, plaintext: &[u8], aad: &[u8]) -> (r: Result<(MessageHeader, Vec<u8>), AeadError>)
        requires
            old(self)@.send_ck is Some ==> old(self)@.send_n < u32::MAX,
        ensures
            encrypt_outcome(old(self)@, plaintext@, aad@, final(self)@, r),
    {
        proof { use_type_invariant(&*self); }
        let chain = match self.send_chain_key {
            Some(c) => c,
            None => return Err(AeadError::Encrypt),
        };
        let (msg_key, next_ck) = kdf_ck(&chain);
        self.send_chain_key = Some(next_ck);
        let dh_public = match &self.dh_send {
            Some(d) => d.public_bytes(),
            None => {
                let z: [u8; 32] = [0u8; 32];
                assert(z@ =~= Seq::new(32, |i: int| 0u8));
                z
            },
        };
        let header = MessageHeader { dh_public, n: self.send_n, pn: self.prev_recv_n };
        self.send_n = self.send_n + 1;
        let aad_full = full_aad(aad, &header.dh_public, header.n);
        let ct = encrypt(&msg_key, plaintext, aad_full.as_slice());
        match ct {
            Ok(ct) => Ok((header, ct)),
            Err(e) => Err(e),
        }
    }
    /// Decrypts a received message. A kept key for (header key, number) is used and dropped;
    /// otherwise a new header key triggers a Diffie-Hellman ratchet step with a fresh sending
    /// key pair, the receiving chain skips ahead to the message number (keeping at most
    /// `MAX_SKIP` skipped keys, `Decrypt` beyond) and the next chain key opens the message.
    /// The fresh key pair is drawn at random; the contract holds for the one drawn.
    pub fn decrypt(&mut self, header: &MessageHeader, ciphertext: &[u8], aad: &[u8]) -> (r: Result<Vec<u8>, AeadError>)
        requires
            decrypt_in_range(old(self)@, header.dh_public@, header.n),
        ensures
            exists|fresh: Seq<u8>|
                fresh.len() == 32 && #[trigger] decrypt_outcome(
                    old(self)@,
                    header.dh_public@,
                    header.n,
                    ciphertext@,
                    aad@,
                    fresh,
                    final(self)@,
                    r,
                ) && (!old(self)@.skipped.contains_key((header.dh_public@, header.n)) && old(self)@.dh_recv != Some(
                    header.dh_public@,
                ) ==> ratchet_dh_agrees(old(self)@, header.dh_public@, fresh)),
    {
        proof { use_type_invariant(&*self); }
        let ghost old_view = self@;
        match find_skipped(&self.skipped_keys, &header.dh_public, header.n) {
            Some(i) => {
                proof {
                    lemma_map_remove(self.skipped_keys@, i as int);
                    lemma_map_at(self.skipped_keys@, i as int);
                }
                let mut keys: Vec<SkippedKey> = Vec::new();
                std::mem::swap(&mut keys, &mut self.skipped_keys);
                let entry = keys.remove(i);
                self.skipped_keys = keys;
                let aad_full = full_aad(aad, &header.dh_public, header.n);
                let r = decrypt(&entry.key, ciphertext, aad_full.as_slice());
                assert(decrypt_outcome(old_view, header.dh_public@, header.n, ciphertext@, aad@, Seq::new(32, |i: int| 0u8), self@, r));
                return r;
            },
            None => {
                proof {
                    if skipped_map(self.skipped_keys@).contains_key((header.dh_public@, header.n)) {
                        let j = choose|j: int|
                            0 <= j < self.skipped_keys@.len() && entry_key(self.skipped_keys@[j]) == (
                                header.dh_public@,
                                header.n,
                            );
                    }
                }
            },
        }
        let is_new = match &self.dh_recv_public {
            Some(p) => !eq32(p, &header.dh_public),
            None => true,
        };
        let ghost mut fresh: Seq<u8> = Seq::new(32, |i: int| 0u8);
        if is_new {
            let new_dh = EphemeralKeyPair::generate();
            proof { fresh = new_dh@; }
            self.dh_ratchet(header, new_dh);
        }
        assert(self@ == ratchet_if_new(old_view, header.dh_public@, fresh));
        let ghost s1 = self@;
        proof { lemma_skip_chain_shape(s1.recv_ck, s1.recv_n, s1.dh_recv, s1.skipped, header.n); }
        let skip = self.skip_message_keys(header.n);
        proof { use_type_invariant(&*self); }
        if skip.is_err() {
            assert(decrypt_outcome(old_view, header.dh_public@, header.n, ciphertext@, aad@, fresh, self@, Err(AeadError::Decrypt)));
            return Err(AeadError::Decrypt);
        }
        let chain = match self.recv_chain_key {
            Some(c) => c,
            None => {
                assert(decrypt_outcome(old_view, header.dh_public@, header.n, ciphertext@, aad@, fresh, self@, Err(AeadError::Decrypt)));
                return Err(AeadError::Decrypt);
            },
        };
        let (msg_key, next_ck) = kdf_ck(&chain);
        self.recv_chain_key = Some(next_ck);
        self.recv_n = self.recv_n + 1;
        let aad_full = full_aad(aad, &header.dh_public, header.n);
        let r = decrypt(&msg_key, ciphertext, aad_full.as_slice());
        assert(decrypt_outcome(old_view, header.dh_public@, header.n, ciphertext@, aad@, fresh, self@, r));
        r
    }

    fn dh_ratchet(&mut self, header: &MessageHeader, new_dh: EphemeralKeyPair)
        ensures
            final(self)@ == dh_ratchet_spec(old(self)@, header.dh_public@, new_dh@),
            ratchet_dh_agrees(old(self)@, header.dh_public@, new_dh@),
    {
        proof { use_type_invariant(&*self); }
        self.prev_recv_n = self.recv_n;
        self.recv_n = 0;
        self.send_n = 0;
        self.dh_recv_public = Some(header.dh_public);
        let shared = match &self.dh_send {
            Some(ds) => Some(ds.diffie_hellman(&header.dh_public)),
            None => None,
        };
        match shared {
            Some(sh) => {
                let (new_root, recv_chain) = kdf_rk(&self.root_key, sh.as_slice());
                self.root_key = new_root;
                self.recv_chain_key = Some(recv_chain);
            },
            None => {},
        }
        let shared2 = new_dh.diffie_hellman(&header.dh_public);
        let (new_root2, send_chain) = kdf_rk(&self.root_key, shared2.as_slice());
        self.root_key = new_root2;
        self.send_chain_key = Some(send_chain);
        self.dh_send = Some(new_dh);
    }

    fn skip_message_keys(&mut self, until: u32) -> (r: Result<(), AeadError>)
        requires
            old(self)@.recv_n + MAX_SKIP <= u32::MAX,
        ensures
            old(self)@.recv_n + MAX_SKIP < until ==> r == Err::<(), AeadError>(AeadError::Decrypt) && final(self)@
                == old(self)@,
            !(old(self)@.recv_n + MAX_SKIP < until) ==> r is Ok && {
                let c = skip_chain(old(self)@.recv_ck, old(self)@.recv_n, old(self)@.dh_recv, old(self)@.skipped, until);
                final(self)@ == RatchetView { recv_ck: c.0, recv_n: c.1, skipped: c.2, ..old(self)@ }
            },
    {
        proof { use_type_invariant(&*self); }
        if self.recv_n + MAX_SKIP < until {
            return Err(AeadError::Decrypt);
        }
        let ghost target = skip_chain(self@.recv_ck, self@.recv_n, self@.dh_recv, self@.skipped, until);
        let ghost start = self@;
        while self.recv_n < until && self.recv_chain_key.is_some()
            invariant
                keys_unique(self.skipped_keys@),
                skip_chain(self@.recv_ck, self@.recv_n, self@.dh_recv, self@.skipped, until) == target,
                self@ == (RatchetView { recv_ck: self@.recv_ck, recv_n: self@.recv_n, skipped: self@.skipped, ..start }),
            decreases until - self.recv_n,
        {
            let chain = match self.recv_chain_key {
                Some(c) => c,
                None => {
                    assert(false);
                    [0u8; 32]
                },
            };
            let (mk, next) = kdf_ck(&chain);
            self.recv_chain_key = Some(next);
            match self.dh_recv_public {
                Some(p) => {
                    let mut keys: Vec<SkippedKey> = Vec::new();
                    std::mem::swap(&mut keys, &mut self.skipped_keys);
                    skipped_insert(&mut keys, p, self.recv_n, mk);
                    self.skipped_keys = keys;
                },
                None => {},
            }
            self.recv_n = self.recv_n + 1;
        }
        Ok(())
    }
}

/// `encrypt`'s outcome: `Encrypt` and no change without a sending chain; otherwise the chain
/// and counter advance, the result is `Ok` exactly when the cipher accepts the lengths, and
/// the header names the sending public key (32 bytes), the message number and the previous
/// receiving count, and the ciphertext is sealed with the chain's message key over `aad`, the header key
/// and the number.
pub open spec fn encrypt_outcome(
    s: RatchetView,
    pt: Seq<u8>,
    aad: Seq<u8>,
    fin: RatchetView,
    r: Result<(MessageHeader, Vec<u8>), AeadError>,
) -> bool {
    &&& s.send_ck is None ==> (r matches Err(e) && e == AeadError::Encrypt) && fin == s
    &&& s.send_ck is Some ==> fin == encrypt_next(s)
    &&& s.send_ck is Some ==> header_public(s).len() == 32
    &&& s.send_ck is Some ==> (r is Ok <==> seal_accepts(
        CipherSuite::Aes256Gcm,
        pt.len(),
        ratchet_aad(aad, header_public(s), s.send_n).len(),
    ))
    &&& r matches Err(e) ==> e == AeadError::Encrypt
    &&& r matches Ok(hc) ==> {
        &&& hc.0.dh_public@ == header_public(s)
        &&& hc.0.n == s.send_n
        &&& hc.0.pn == s.prev_recv_n
        &&& is_sealed(hc.1@, CipherSuite::Aes256Gcm, kdf_ck_spec(s.send_ck->0).0, pt, ratchet_aad(aad, hc.0.dh_public@, hc.0.n))
        &&& hc.1@.len() == 29 + pt.len()
    }
}

/// `decrypt`'s outcome for a given fresh sending secret: the final state is that of
/// `decrypt_spec`, and an error of `decrypt_spec` is returned as is; otherwise the message is
/// opened with the message key over the full associated data, and a message sealed that way
/// opens to its plaintext.
pub open spec fn decrypt_outcome(
    s: RatchetView,
    dh: Seq<u8>,
    n: u32,
    ct: Seq<u8>,
    aad: Seq<u8>,
    fresh: Seq<u8>,
    fin: RatchetView,
    r: Result<Vec<u8>, AeadError>,
) -> bool {
    let d = decrypt_spec(s, dh, n, fresh);
    &&& fin == d.0
    &&& match d.1 {
        Err(e) => r matches Err(e2) && e2 == e,
        Ok(mk) => {
            &&& bytes_result(r) == decrypt_auto_spec(mk, ct, ratchet_aad(aad, dh, n))
            &&& forall|su: CipherSuite, m: Seq<u8>|
                #[trigger] is_sealed(ct, su, mk, m, ratchet_aad(aad, dh, n)) && seal_accepts(
                    su,
                    m.len(),
                    ratchet_aad(aad, dh, n).len(),
                ) ==> bytes_result(r) == Ok::<Seq<u8>, AeadError>(m)
        },
    }
}

/// The responder opens the initiator's first message with the key it was sealed with: for
/// any handshake keys `k` (as the initiator holds them), any initiator sending secret `a`
/// and any fresh secret `f` the responder may draw, the responder's session started from the
/// exchanged keys derives, for header key `x25519_base(a)` and number 0, the message key that
/// the initiator's first `encrypt` used.
pub proof fn law_first_message_key_agrees(k: (Seq<u8>, Seq<u8>, Seq<u8>), a: Seq<u8>, f: Seq<u8>)
    ensures
        ({
            let init = initial_view(k, true, a);
            let resp = initial_view((k.1, k.0, k.2), false, Seq::empty());
            &&& header_public(init) == x25519_base(a)
            &&& init.send_n == 0
            &&& decrypt_spec(resp, header_public(init), init.send_n, f).1 == Ok::<Seq<u8>, AeadError>(
                kdf_ck_spec(init.send_ck->0).0,
            )
        }),
{
    let resp = initial_view((k.1, k.0, k.2), false, Seq::empty());
    let s1 = ratchet_if_new(resp, x25519_base(a), f);
    assert(!resp.skipped.contains_key((x25519_base(a), 0u32)));
    assert(s1.recv_ck == Some(k.0));
    assert(s1.recv_n == 0);
}

/// The responder reads what the initiator wrote: when the initiator's first `encrypt` of
/// `pt` over `aad` succeeds with header `h` and ciphertext `ct`, the responder's session
/// started from the exchanged keys decrypts (`h`, `ct`) over the same `aad` to `pt`, whatever
/// fresh secret `f` it draws.
pub proof fn law_first_message_round_trip(
    k: (Seq<u8>, Seq<u8>, Seq<u8>),
    a: Seq<u8>,
    f: Seq<u8>,
    pt: Seq<u8>,
    aad: Seq<u8>,
    sent: RatchetView,
    h: MessageHeader,
    ct: Vec<u8>,
    received: RatchetView,
    r: Result<Vec<u8>, AeadError>,
)
    requires
        encrypt_outcome(initial_view(k, true, a), pt, aad, sent, Ok((h, ct))),
        decrypt_outcome(initial_view((k.1, k.0, k.2), false, Seq::empty()), h.dh_public@, h.n, ct@, aad, f, received, r),
    ensures
        bytes_result(r) == Ok::<Seq<u8>, AeadError>(pt),
{
    let init = initial_view(k, true, a);
    law_first_message_key_agrees(k, a, f);
    let mk = kdf_ck_spec(init.send_ck->0).0;
    assert(is_sealed(ct@, CipherSuite::Aes256Gcm, mk, pt, ratchet_aad(aad, h.dh_public@, h.n)));
}

/// Out-of-order delivery: when the responder receives the initiator's second message before
/// its first, it opens the second with the second message key and keeps the first message key,
/// with which it then opens the first message.
pub proof fn law_skipped_message_key_kept(k: (Seq<u8>, Seq<u8>, Seq<u8>), a: Seq<u8>, f: Seq<u8>, g: Seq<u8>)
    ensures
        ({
            let init = initial_view(k, true, a);
            let init2 = encrypt_next(init);
            let resp = initial_view((k.1, k.0, k.2), false, Seq::empty());
            let d1 = decrypt_spec(resp, x25519_base(a), 1, f);
            let d0 = decrypt_spec(d1.0, x25519_base(a), 0, g);
            &&& init2.send_n == 1
            &&& d1.1 == Ok::<Seq<u8>, AeadError>(kdf_ck_spec(init2.send_ck->0).0)
            &&& d0.1 == Ok::<Seq<u8>, AeadError>(kdf_ck_spec(init.send_ck->0).0)
        }),
{
    let pa = x25519_base(a);
    let resp = initial_view((k.1, k.0, k.2), false, Seq::empty());
    let s1 = ratchet_if_new(resp, pa, f);
    assert(!resp.skipped.contains_key((pa, 1u32)));
    assert(s1.recv_ck == Some(k.0));
    assert(s1.recv_n == 0);
    assert(s1.dh_recv == Some(pa));
    let k0 = kdf_ck_spec(k.0);
    let c = skip_chain(s1.recv_ck, s1.recv_n, s1.dh_recv, s1.skipped, 1);
    assert(skip_chain(Some(k0.1), 1, Some(pa), s1.skipped.insert((pa, 0u32), k0.0), 1) == (
        Some(k0.1),
        1u32,
        s1.skipped.insert((pa, 0u32), k0.0),
    ));
    assert(c == (Some(k0.1), 1u32, s1.skipped.insert((pa, 0u32), k0.0)));
    let d1 = decrypt_spec(resp, pa, 1, f);
    assert(d1.0.skipped.contains_key((pa, 0u32)));
    assert(d1.0.skipped[(pa, 0u32)] == k0.0);
}

/// After skipping, the receiving chain is present exactly when it was, and the counter stands
/// at `until` when it moved.
pub proof fn lemma_skip_chain_shape(
    ck: Option<Seq<u8>>,
    n: u32,
    dh: Option<Seq<u8>>,
    skipped: Map<(Seq<u8>, u32), Seq<u8>>,
    until: u32,
)
    ensures
        skip_chain(ck, n, dh, skipped, until).0 is Some <==> ck is Some,
        skip_chain(ck, n, dh, skipped, until).1 == (if ck is Some && n < until { until } else { n }),
    decreases until - n,
{
    if n >= until || ck is None {
    } else {
        let k = kdf_ck_spec(ck->0);
        let sk2 = match dh {
            Some(p) => skipped.insert((p, n), k.0),
            None => skipped,
        };
        lemma_skip_chain_shape(Some(k.1), (n + 1) as u32, dh, sk2, until);
    }
}

/// The chain key `n` steps down a sending chain that starts at `c`.
pub open spec fn chain_at(c: Seq<u8>, n: nat) -> Seq<u8>
    decreases n,
{
    if n == 0 {
        c
    } else {
        kdf_ck_spec(chain_at(c, (n - 1) as nat)).1
    }
}

/// The message key of message `n` of a chain that starts at `c`.
pub open spec fn key_at(c: Seq<u8>, n: nat) -> Seq<u8> {
    kdf_ck_spec(chain_at(c, n)).0
}

/// The state after `n` messages sent from `s`.
pub open spec fn sent_after(s: RatchetView, n: nat) -> RatchetView
    decreases n,
{
    if n == 0 {
        s
    } else {
        encrypt_next(sent_after(s, (n - 1) as nat))
    }
}

/// The receiving state after the messages numbered `order` (all under header key `dh`) arrive
/// one after the other, the `i`-th drawing the fresh secret `fresh[i]` if it ratchets.
pub open spec fn deliver_all(s: RatchetView, dh: Seq<u8>, order: Seq<u32>, fresh: Seq<Seq<u8>>) -> RatchetView
    decreases order.len(),
{
    if order.len() == 0 {
        s
    } else {
        decrypt_spec(
            deliver_all(s, dh, order.drop_last(), fresh.take(order.len() - 1)),
            dh,
            order.last(),
            fresh[order.len() - 1],
        ).0
    }
}

/// The largest number in `p` (0 for none).
pub open spec fn seq_max(p: Seq<u32>) -> nat
    decreases p.len(),
{
    if p.len() == 0 {
        0
    } else {
        let m = seq_max(p.drop_last());
        if p.last() as nat > m {
            p.last() as nat
        } else {
            m
        }
    }
}

/// The keys kept for the messages below `upto` on chain `c` under header key `pa` that have
/// not arrived (are not in `done`).
pub open spec fn kept_keys(pa: Seq<u8>, c: Seq<u8>, upto: nat, done: Seq<u32>) -> Map<(Seq<u8>, u32), Seq<u8>> {
    Map::new(
        |key: (Seq<u8>, u32)| key.0 == pa && (key.1 as nat) < upto && !done.contains(key.1),
        |key: (Seq<u8>, u32)| key_at(c, key.1 as nat),
    )
}

proof fn lemma_seq_max(p: Seq<u32>)
    ensures
        forall|i: int| 0 <= i < p.len() ==> p[i] as nat <= seq_max(p),
        p.len() > 0 ==> p.contains(seq_max(p) as u32) && seq_max(p) <= u32::MAX,
    decreases p.len(),
{
    if p.len() > 0 {
        lemma_seq_max(p.drop_last());
        assert forall|i: int| 0 <= i < p.len() implies p[i] as nat <= seq_max(p) by {
            if i < p.len() - 1 {
                assert(p[i] == p.drop_last()[i]);
            }
        }
        if p.len() > 1 && !(p.last() as nat > seq_max(p.drop_last())) {
            let j = choose|j: int| 0 <= j < p.drop_last().len() && p.drop_last()[j] == seq_max(p.drop_last()) as u32;
            assert(p[j] == p.drop_last()[j]);
        } else {
            assert(p[p.len() - 1] == p.last());
        }
    }
}

/// Skipping ahead keeps, under header key `pa`, the message key of every message passed over.
proof fn lemma_skip_chain_keys(c: Seq<u8>, m: u32, pa: Seq<u8>, sk: Map<(Seq<u8>, u32), Seq<u8>>, until: u32)
    requires
        m <= until,
    ensures
        skip_chain(Some(chain_at(c, m as nat)), m, Some(pa), sk, until) == (
            Some(chain_at(c, until as nat)),
            until,
            sk.union_prefer_right(
                Map::new(
                    |key: (Seq<u8>, u32)| key.0 == pa && m <= key.1 < until,
                    |key: (Seq<u8>, u32)| key_at(c, key.1 as nat),
                ),
            ),
        ),
    decreases until - m,
{
    let r = Map::new(
        |key: (Seq<u8>, u32)| key.0 == pa && m <= key.1 < until,
        |key: (Seq<u8>, u32)| key_at(c, key.1 as nat),
    );
    if m == until {
        assert(sk.union_prefer_right(r) =~= sk);
    } else {
        let k = kdf_ck_spec(chain_at(c, m as nat));
        let sk2 = sk.insert((pa, m), k.0);
        let m1 = (m + 1) as u32;
        assert(chain_at(c, m1 as nat) == k.1);
        lemma_skip_chain_keys(c, m1, pa, sk2, until);
        let r1 = Map::new(
            |key: (Seq<u8>, u32)| key.0 == pa && m1 <= key.1 < until,
            |key: (Seq<u8>, u32)| key_at(c, key.1 as nat),
        );
        assert(sk2.union_prefer_right(r1) =~= sk.union_prefer_right(r));
    }
}

/// The responder's state once the messages `p` (a nonempty prefix of the order, numbers at
/// most `MAX_SKIP`) of the initiator's first chain have arrived: it ratcheted once with the
/// first fresh secret `f0`, received up to the largest of them, and keeps the keys of the
/// smaller ones that have not arrived.
pub open spec fn responder_after(k: (Seq<u8>, Seq<u8>, Seq<u8>), pa: Seq<u8>, f0: Seq<u8>, p: Seq<u32>) -> RatchetView {
    let rk = kdf_rk_spec(k.2, x25519_shared(f0, pa));
    RatchetView {
        root: rk.0,
        send_ck: Some(rk.1),
        send_n: 0,
        recv_ck: Some(chain_at(k.0, seq_max(p) + 1)),
        recv_n: (seq_max(p) + 1) as u32,
        prev_recv_n: 0,
        dh_send: Some(f0),
        dh_recv: Some(pa),
        skipped: kept_keys(pa, k.0, seq_max(p) + 1, p),
    }
}

proof fn lemma_deliver_step(
    k: (Seq<u8>, Seq<u8>, Seq<u8>),
    a: Seq<u8>,
    order: Seq<u32>,
    fresh: Seq<Seq<u8>>,
    j: int,
)
    requires
        0 <= j < order.len(),
        fresh.len() == order.len(),
        forall|x: int, y: int| 0 <= x < y < order.len() ==> order[x] != order[y],
        forall|x: int| 0 <= x < order.len() ==> order[x] <= MAX_SKIP,
    ensures
        ({
            let pa = x25519_base(a);
            let resp = initial_view((k.1, k.0, k.2), false, Seq::empty());
            let before = deliver_all(resp, pa, order.take(j), fresh.take(j));
            &&& decrypt_spec(before, pa, order[j], fresh[j]).1 == Ok::<Seq<u8>, AeadError>(key_at(k.0, order[j] as nat))
            &&& deliver_all(resp, pa, order.take(j + 1), fresh.take(j + 1)) == responder_after(
                k,
                pa,
                fresh[0],
                order.take(j + 1),
            )
        }),
    decreases j,
{
    let pa = x25519_base(a);
    let resp = initial_view((k.1, k.0, k.2), false, Seq::empty());
    let n = order[j];
    let pj = order.take(j);
    let pj1 = order.take(j + 1);
    assert(pj1.drop_last() =~= pj);
    assert(fresh.take(j + 1).take(j) =~= fresh.take(j));
    assert(pj1.last() == n);
    let before = deliver_all(resp, pa, pj, fresh.take(j));
    assert(deliver_all(resp, pa, pj1, fresh.take(j + 1)) == decrypt_spec(before, pa, n, fresh[j]).0);
    lemma_seq_max(pj1);
    assert forall|x: int| 0 <= x < pj.len() implies pj[x] != n by {
        assert(pj[x] == order[x]);
    }
    if j == 0 {
        assert(pj =~= Seq::<u32>::empty());
        assert(before == resp);
        assert(!resp.skipped.contains_key((pa, n)));
        let s1 = dh_ratchet_spec(resp, pa, fresh[0]);
        assert(ratchet_if_new(resp, pa, fresh[0]) == s1);
        assert(chain_at(k.0, 0) == k.0);
        lemma_skip_chain_keys(k.0, 0, pa, s1.skipped, n);
        assert(seq_max(pj1) == n as nat) by {
            assert(pj1.drop_last() =~= Seq::<u32>::empty());
        }
        let c = skip_chain(s1.recv_ck, s1.recv_n, s1.dh_recv, s1.skipped, n);
        let r = Map::new(
            |key: (Seq<u8>, u32)| key.0 == pa && 0 <= key.1 < n,
            |key: (Seq<u8>, u32)| key_at(k.0, key.1 as nat),
        );
        assert(c.2 == s1.skipped.union_prefer_right(r));
        assert(c.2 =~= kept_keys(pa, k.0, seq_max(pj1) + 1, pj1)) by {
            assert forall|key: (Seq<u8>, u32)| kept_keys(pa, k.0, seq_max(pj1) + 1, pj1).contains_key(key) implies key.1
                < n by {
                if key.1 == n {
                    assert(pj1[0] == n);
                }
            }
            assert forall|key: (Seq<u8>, u32)| #[trigger] r.contains_key(key) implies !pj1.contains(key.1) by {
                if pj1.contains(key.1) {
                    let x = choose|x: int| 0 <= x < pj1.len() && pj1[x] == key.1;
                    assert(x == 0);
                }
            }
        }
        assert(chain_at(k.0, n as nat + 1) == kdf_ck_spec(chain_at(k.0, n as nat)).1);
    } else {
        lemma_deliver_step(k, a, order, fresh, j - 1);
        assert(order.take(j - 1 + 1) =~= pj);
        assert(fresh.take(j - 1 + 1) =~= fresh.take(j));
        assert(pj.take(1) =~= order.take(1));
        assert(before == responder_after(k, pa, fresh[0], pj));
        lemma_seq_max(pj);
        let mx = seq_max(pj);
        assert(seq_max(pj1) == if n as nat > mx { n as nat } else { mx });
        if (n as nat) < mx + 1 {
            assert(before.skipped.contains_key((pa, n))) by {
                assert(!pj.contains(n));
            }
            assert(before.skipped.remove((pa, n)) =~= kept_keys(pa, k.0, mx + 1, pj1)) by {
                assert forall|x: u32| pj1.contains(x) <==> (pj.contains(x) || x == n) by {
                    if pj1.contains(x) {
                        let y = choose|y: int| 0 <= y < pj1.len() && pj1[y] == x;
                        if y < j {
                            assert(pj[y] == x);
                        }
                    }
                    if pj.contains(x) {
                        let y = choose|y: int| 0 <= y < pj.len() && pj[y] == x;
                        assert(pj1[y] == x);
                    }
                    if x == n {
                        assert(pj1[j] == n);
                    }
                }
            }
        } else {
            assert(!before.skipped.contains_key((pa, n)));
            assert(ratchet_if_new(before, pa, fresh[j]) == before);
            let m = (mx + 1) as u32;
            lemma_skip_chain_keys(k.0, m, pa, before.skipped, n);
            let r = Map::new(
                |key: (Seq<u8>, u32)| key.0 == pa && m <= key.1 < n,
                |key: (Seq<u8>, u32)| key_at(k.0, key.1 as nat),
            );
            assert(before.skipped.union_prefer_right(r) =~= kept_keys(pa, k.0, n as nat + 1, pj1)) by {
                assert forall|x: u32| pj1.contains(x) <==> (pj.contains(x) || x == n) by {
                    if pj1.contains(x) {
                        let y = choose|y: int| 0 <= y < pj1.len() && pj1[y] == x;
                        if y < j {
                            assert(pj[y] == x);
                        }
                    }
                    if pj.contains(x) {
                        let y = choose|y: int| 0 <= y < pj.len() && pj[y] == x;
                        assert(pj1[y] == x);
                    }
                    if x == n {
                        assert(pj1[j] == n);
                    }
                }
                assert forall|x: u32| pj.contains(x) implies x as nat <= mx by {
                    let y = choose|y: int| 0 <= y < pj.len() && pj[y] == x;
                }
            }
            assert(chain_at(k.0, n as nat + 1) == kdf_ck_spec(chain_at(k.0, n as nat)).1);
        }
    }
}

/// Messages arriving in any order: for handshake keys `k`, initiator sending secret `a`, and
/// any order of distinct message numbers up to `MAX_SKIP` of the initiator's first chain
/// (with the fresh secrets the responder draws), the responder's session started from the
/// exchanged keys derives for each arriving message the key the initiator's `encrypt` used for
/// it: message `n` is sealed with `key_at(k.0, n)` under header key `x25519_base(a)`. The
/// responder then stands as `responder_after` says, ready to reply.
pub proof fn law_reordered_delivery(k: (Seq<u8>, Seq<u8>, Seq<u8>), a: Seq<u8>, order: Seq<u32>, fresh: Seq<Seq<u8>>)
    requires
        fresh.len() == order.len(),
        forall|x: int, y: int| 0 <= x < y < order.len() ==> order[x] != order[y],
        forall|x: int| 0 <= x < order.len() ==> order[x] <= MAX_SKIP,
    ensures
        forall|n: nat| #![trigger sent_after(initial_view(k, true, a), n)]
            sent_after(initial_view(k, true, a), n).send_ck == Some(chain_at(k.0, n)) && header_public(
                sent_after(initial_view(k, true, a), n),
            ) == x25519_base(a),
        forall|j: int|
            0 <= j < order.len() ==> decrypt_spec(
                #[trigger] deliver_all(
                    initial_view((k.1, k.0, k.2), false, Seq::empty()),
                    x25519_base(a),
                    order.take(j),
                    fresh.take(j),
                ),
                x25519_base(a),
                order[j],
                fresh[j],
            ).1 == Ok::<Seq<u8>, AeadError>(key_at(k.0, order[j] as nat)),
        order.len() > 0 ==> deliver_all(initial_view((k.1, k.0, k.2), false, Seq::empty()), x25519_base(a), order, fresh)
            == responder_after(k, x25519_base(a), fresh[0], order),
{
    if order.len() > 0 {
        lemma_deliver_step(k, a, order, fresh, order.len() - 1);
        assert(order.take(order.len() as int) =~= order);
        assert(fresh.take(order.len() as int) =~= fresh);
    }
    assert forall|n: nat| #![trigger sent_after(initial_view(k, true, a), n)]
        sent_after(initial_view(k, true, a), n).send_ck == Some(chain_at(k.0, n)) && header_public(
            sent_after(initial_view(k, true, a), n),
        ) == x25519_base(a) by {
        lemma_sent_after(k, a, n);
    }
    assert forall|j: int| 0 <= j < order.len() implies decrypt_spec(
        #[trigger] deliver_all(
            initial_view((k.1, k.0, k.2), false, Seq::empty()),
            x25519_base(a),
            order.take(j),
            fresh.take(j),
        ),
        x25519_base(a),
        order[j],
        fresh[j],
    ).1 == Ok::<Seq<u8>, AeadError>(key_at(k.0, order[j] as nat)) by {
        lemma_deliver_step(k, a, order, fresh, j);
    }
}

proof fn lemma_sent_after(k: (Seq<u8>, Seq<u8>, Seq<u8>), a: Seq<u8>, n: nat)
    ensures
        sent_after(initial_view(k, true, a), n) == (RatchetView {
            send_ck: Some(chain_at(k.0, n)),
            send_n: sent_after(initial_view(k, true, a), n).send_n,
            ..initial_view(k, true, a)
        }),
        n <= u32::MAX ==> sent_after(initial_view(k, true, a), n).send_n == n,
    decreases n,
{
    if n > 0 {
        lemma_sent_after(k, a, (n - 1) as nat);
    }
}

/// The reply: once messages `p` of the initiator's first chain have arrived (the first of them
/// ratcheting with fresh secret `f0`, whose Diffie-Hellman with the initiator's key agrees with
/// the other side, as `decrypt` states of that ratchet step), the responder's first message is
/// sealed with the key that the initiator, having sent `n` messages and received none, derives
/// for it.
pub proof fn law_reply_after_delivery(
    k: (Seq<u8>, Seq<u8>, Seq<u8>),
    a: Seq<u8>,
    f0: Seq<u8>,
    p: Seq<u32>,
    n: nat,
    g: Seq<u8>,
)
    requires
        a.len() == 32,
        dh_agrees(f0, x25519_base(a)),
    ensures
        ({
            let resp = responder_after(k, x25519_base(a), f0, p);
            let init = sent_after(initial_view(k, true, a), n);
            &&& resp.send_n == 0
            &&& header_public(resp) == x25519_base(f0)
            &&& decrypt_spec(init, header_public(resp), resp.send_n, g).1 == Ok::<Seq<u8>, AeadError>(
                kdf_ck_spec(resp.send_ck->0).0,
            )
        }),
{
    assert(x25519_shared(f0, x25519_base(a)) == x25519_shared(a, x25519_base(f0)));
    lemma_sent_after(k, a, n);
    let init = sent_after(initial_view(k, true, a), n);
    let pf = x25519_base(f0);
    assert(!init.skipped.contains_key((pf, 0u32)));
    let s1 = ratchet_if_new(init, pf, g);
    assert(s1.recv_ck == Some(kdf_rk_spec(k.2, x25519_shared(a, pf)).1));
    assert(s1.recv_n == 0);
}

/// Messages arriving in any order, read in full: the initiator's session (from handshake
/// keys `k` and sending secret `a`) encrypts messages `0..msgs.len()` (at most `MAX_SKIP + 1`)
/// of `pts` over `aad`, and they reach the responder's session, started from the exchanged
/// keys, once each in the order `order`. Each decryption gives back the plaintext of the
/// message that arrived.
pub proof fn law_reordered_messages(
    k: (Seq<u8>, Seq<u8>, Seq<u8>),
    a: Seq<u8>,
    aad: Seq<u8>,
    pts: Seq<Seq<u8>>,
    msgs: Seq<(MessageHeader, Vec<u8>)>,
    order: Seq<u32>,
    fresh: Seq<Seq<u8>>,
    rs: Seq<Result<Vec<u8>, AeadError>>,
)
    requires
        msgs.len() == pts.len(),
        msgs.len() <= MAX_SKIP + 1,
        fresh.len() == order.len(),
        rs.len() == order.len(),
        forall|x: int, y: int| 0 <= x < y < order.len() ==> order[x] != order[y],
        forall|x: int| 0 <= x < order.len() ==> order[x] < msgs.len(),
        forall|n: int|
            0 <= n < msgs.len() ==> #[trigger] encrypt_outcome(
                sent_after(initial_view(k, true, a), n as nat),
                pts[n],
                aad,
                sent_after(initial_view(k, true, a), (n + 1) as nat),
                Ok(msgs[n]),
            ),
        forall|j: int|
            0 <= j < order.len() ==> #[trigger] decrypt_outcome(
                deliver_all(initial_view((k.1, k.0, k.2), false, Seq::empty()), x25519_base(a), order.take(j), fresh.take(j)),
                msgs[order[j] as int].0.dh_public@,
                msgs[order[j] as int].0.n,
                msgs[order[j] as int].1@,
                aad,
                fresh[j],
                deliver_all(
                    initial_view((k.1, k.0, k.2), false, Seq::empty()),
                    x25519_base(a),
                    order.take(j + 1),
                    fresh.take(j + 1),
                ),
                rs[j],
            ),
    ensures
        forall|j: int|
            0 <= j < order.len() ==> crate::crypto::aead::bytes_result(#[trigger] rs[j]) == Ok::<Seq<u8>, AeadError>(
                pts[order[j] as int],
            ),
{
    assert forall|j: int| 0 <= j < order.len() implies crate::crypto::aead::bytes_result(#[trigger] rs[j]) == Ok::<
        Seq<u8>,
        AeadError,
    >(pts[order[j] as int]) by {
        let n = order[j] as int;
        let init = initial_view(k, true, a);
        lemma_sent_after(k, a, n as nat);
        let s = sent_after(init, n as nat);
        assert(encrypt_outcome(s, pts[n], aad, sent_after(init, (n + 1) as nat), Ok(msgs[n])));
        assert(msgs[n].0.n == n);
        assert(msgs[n].0.dh_public@ == x25519_base(a));
        lemma_deliver_step(k, a, order, fresh, j);
        assert(decrypt_outcome(
            deliver_all(initial_view((k.1, k.0, k.2), false, Seq::empty()), x25519_base(a), order.take(j), fresh.take(j)),
            msgs[n].0.dh_public@,
            msgs[n].0.n,
            msgs[n].1@,
            aad,
            fresh[j],
            deliver_all(initial_view((k.1, k.0, k.2), false, Seq::empty()), x25519_base(a), order.take(j + 1), fresh.take(j + 1)),
            rs[j],
        ));
        assert(is_sealed(msgs[n].1@, CipherSuite::Aes256Gcm, key_at(k.0, n as nat), pts[n], ratchet_aad(aad, x25519_base(a), order[j])));
    }
}

/// Messages arriving in any order, then the reply: as in `law_reordered_messages`, the
/// initiator's first chain of messages reaches the responder once each in the order `order`,
/// the first arrival drawing fresh secret `fresh[0]` (whose Diffie-Hellman agrees with the
/// other side, as `decrypt` states); each decryption gives back its plaintext. The responder
/// then encrypts `q` over `ad2` into `rm`, and the initiator, which has received nothing yet,
/// decrypts `rm` over `ad2` (fresh secret `fa`) and gets `q` back.
pub proof fn law_reordered_then_reply(
    k: (Seq<u8>, Seq<u8>, Seq<u8>),
    a: Seq<u8>,
    aad: Seq<u8>,
    pts: Seq<Seq<u8>>,
    msgs: Seq<(MessageHeader, Vec<u8>)>,
    order: Seq<u32>,
    fresh: Seq<Seq<u8>>,
    rs: Seq<Result<Vec<u8>, AeadError>>,
    q: Seq<u8>,
    ad2: Seq<u8>,
    b2: RatchetView,
    rm: (MessageHeader, Vec<u8>),
    fa: Seq<u8>,
    a2: RatchetView,
    rr: Result<Vec<u8>, AeadError>,
)
    requires
        a.len() == 32,
        msgs.len() == pts.len(),
        msgs.len() <= MAX_SKIP + 1,
        order.len() > 0,
        fresh.len() == order.len(),
        rs.len() == order.len(),
        forall|x: int, y: int| 0 <= x < y < order.len() ==> order[x] != order[y],
        forall|x: int| 0 <= x < order.len() ==> order[x] < msgs.len(),
        forall|n: int|
            0 <= n < msgs.len() ==> #[trigger] encrypt_outcome(
                sent_after(initial_view(k, true, a), n as nat),
                pts[n],
                aad,
                sent_after(initial_view(k, true, a), (n + 1) as nat),
                Ok(msgs[n]),
            ),
        forall|j: int|
            0 <= j < order.len() ==> #[trigger] decrypt_outcome(
                deliver_all(initial_view((k.1, k.0, k.2), false, Seq::empty()), x25519_base(a), order.take(j), fresh.take(j)),
                msgs[order[j] as int].0.dh_public@,
                msgs[order[j] as int].0.n,
                msgs[order[j] as int].1@,
                aad,
                fresh[j],
                deliver_all(
                    initial_view((k.1, k.0, k.2), false, Seq::empty()),
                    x25519_base(a),
                    order.take(j + 1),
                    fresh.take(j + 1),
                ),
                rs[j],
            ),
        ratchet_dh_agrees(initial_view((k.1, k.0, k.2), false, Seq::empty()), x25519_base(a), fresh[0]),
        encrypt_outcome(
            deliver_all(initial_view((k.1, k.0, k.2), false, Seq::empty()), x25519_base(a), order, fresh),
            q,
            ad2,
            b2,
            Ok(rm),
        ),
        decrypt_outcome(
            sent_after(initial_view(k, true, a), msgs.len() as nat),
            rm.0.dh_public@,
            rm.0.n,
            rm.1@,
            ad2,
            fa,
            a2,
            rr,
        ),
    ensures
        forall|j: int|
            0 <= j < order.len() ==> crate::crypto::aead::bytes_result(#[trigger] rs[j]) == Ok::<Seq<u8>, AeadError>(
                pts[order[j] as int],
            ),
        crate::crypto::aead::bytes_result(rr) == Ok::<Seq<u8>, AeadError>(q),
{
    law_reordered_messages(k, a, aad, pts, msgs, order, fresh, rs);
    law_reordered_delivery(k, a, order, fresh);
    let pa = x25519_base(a);
    let resp = responder_after(k, pa, fresh[0], order);
    law_reply_after_delivery(k, a, fresh[0], order, msgs.len() as nat, fa);
    let mk = kdf_ck_spec(resp.send_ck->0).0;
    let ad = ratchet_aad(ad2, rm.0.dh_public@, rm.0.n);
    assert(rm.0.dh_public@ == header_public(resp) && rm.0.n == 0);
    assert(is_sealed(rm.1@, CipherSuite::Aes256Gcm, mk, q, ad));
    assert(seal_accepts(CipherSuite::Aes256Gcm, q.len(), ad.len()));
}

/// Two sessions in step: `x` sent last and `y` has received all of it. `y` receives on `x`'s
/// sending chain at `x`'s counter, and `y`'s own sending chain is the one that `x` will derive
/// from its root and the Diffie-Hellman of the two sending keys. No keys are kept.
pub open spec fn in_step(x: RatchetView, y: RatchetView) -> bool {
    &&& x.dh_send is Some
    &&& x.dh_send->0.len() == 32
    &&& y.dh_send is Some
    &&& y.dh_send->0.len() == 32
    &&& x.send_ck is Some
    &&& y.send_ck is Some
    &&& y.dh_recv == Some(x25519_base(x.dh_send->0))
    &&& y.recv_ck == x.send_ck
    &&& y.recv_n == x.send_n
    &&& x.skipped == Map::<(Seq<u8>, u32), Seq<u8>>::empty()
    &&& y.skipped == Map::<(Seq<u8>, u32), Seq<u8>>::empty()
    &&& y.send_n == 0
    &&& kdf_rk_spec(x.root, x25519_shared(y.dh_send->0, x25519_base(x.dh_send->0))) == (y.root, y.send_ck->0)
}

/// One message delivered: the sender in state `s` encrypts `pt` over `aad` into `m` and ends in
/// `s2` (what `encrypt` states); the receiver in state `r` decrypts `m` over `aad` with fresh
/// secret `fresh`, ends in `r2` and answers `res` (what `decrypt` states).
pub open spec fn delivered(
    s: RatchetView,
    s2: RatchetView,
    r: RatchetView,
    r2: RatchetView,
    pt: Seq<u8>,
    aad: Seq<u8>,
    m: (MessageHeader, Vec<u8>),
    fresh: Seq<u8>,
    res: Result<Vec<u8>, AeadError>,
) -> bool {
    &&& encrypt_outcome(s, pt, aad, s2, Ok(m))
    &&& fresh.len() == 32
    &&& decrypt_outcome(r, m.0.dh_public@, m.0.n, m.1@, aad, fresh, r2, res)
    &&& (!r.skipped.contains_key((m.0.dh_public@, m.0.n)) && r.dh_recv != Some(m.0.dh_public@) ==> ratchet_dh_agrees(
        r,
        m.0.dh_public@,
        fresh,
    ))
}

proof fn lemma_opens(
    s: RatchetView,
    s2: RatchetView,
    r: RatchetView,
    r2: RatchetView,
    pt: Seq<u8>,
    aad: Seq<u8>,
    m: (MessageHeader, Vec<u8>),
    fresh: Seq<u8>,
    res: Result<Vec<u8>, AeadError>,
)
    requires
        delivered(s, s2, r, r2, pt, aad, m, fresh, res),
        decrypt_spec(r, m.0.dh_public@, m.0.n, fresh).1 == Ok::<Seq<u8>, AeadError>(kdf_ck_spec(s.send_ck->0).0),
    ensures
        crate::crypto::aead::bytes_result(res) == Ok::<Seq<u8>, AeadError>(pt),
{
    assert(is_sealed(m.1@, CipherSuite::Aes256Gcm, kdf_ck_spec(s.send_ck->0).0, pt, ratchet_aad(aad, m.0.dh_public@, m.0.n)));
}

proof fn lemma_first_turn(
    k: (Seq<u8>, Seq<u8>, Seq<u8>),
    a: Seq<u8>,
    s2: RatchetView,
    r2: RatchetView,
    pt: Seq<u8>,
    aad: Seq<u8>,
    m: (MessageHeader, Vec<u8>),
    fresh: Seq<u8>,
    res: Result<Vec<u8>, AeadError>,
)
    requires
        a.len() == 32,
        delivered(initial_view(k, true, a), s2, initial_view((k.1, k.0, k.2), false, Seq::empty()), r2, pt, aad, m, fresh, res),
    ensures
        crate::crypto::aead::bytes_result(res) == Ok::<Seq<u8>, AeadError>(pt),
        in_step(s2, r2),
{
    let s = initial_view(k, true, a);
    let r = initial_view((k.1, k.0, k.2), false, Seq::empty());
    let dh = m.0.dh_public@;
    assert(dh == x25519_base(a));
    assert(m.0.n == 0);
    assert(!r.skipped.contains_key((dh, 0u32)));
    let s1 = ratchet_if_new(r, dh, fresh);
    assert(s1 == dh_ratchet_spec(r, dh, fresh));
    assert(s1.recv_ck == Some(k.0) && s1.recv_n == 0);
    assert(skip_chain(s1.recv_ck, s1.recv_n, s1.dh_recv, s1.skipped, 0) == (s1.recv_ck, s1.recv_n, s1.skipped));
    lemma_opens(s, s2, r, r2, pt, aad, m, fresh, res);
    assert(r2.skipped =~= Map::<(Seq<u8>, u32), Seq<u8>>::empty());
}

proof fn lemma_same_speaker(
    x: RatchetView,
    y: RatchetView,
    x2: RatchetView,
    y2: RatchetView,
    pt: Seq<u8>,
    aad: Seq<u8>,
    m: (MessageHeader, Vec<u8>),
    fresh: Seq<u8>,
    res: Result<Vec<u8>, AeadError>,
)
    requires
        in_step(x, y),
        delivered(x, x2, y, y2, pt, aad, m, fresh, res),
    ensures
        crate::crypto::aead::bytes_result(res) == Ok::<Seq<u8>, AeadError>(pt),
        in_step(x2, y2),
{
    let dh = m.0.dh_public@;
    let n = m.0.n;
    assert(dh == x25519_base(x.dh_send->0));
    assert(!y.skipped.contains_key((dh, n)));
    assert(ratchet_if_new(y, dh, fresh) == y);
    assert(skip_chain(y.recv_ck, y.recv_n, y.dh_recv, y.skipped, n) == (y.recv_ck, y.recv_n, y.skipped));
    lemma_opens(x, x2, y, y2, pt, aad, m, fresh, res);
}

proof fn lemma_switch_speaker(
    x: RatchetView,
    y: RatchetView,
    x2: RatchetView,
    y2: RatchetView,
    pt: Seq<u8>,
    aad: Seq<u8>,
    m: (MessageHeader, Vec<u8>),
    fresh: Seq<u8>,
    res: Result<Vec<u8>, AeadError>,
)
    requires
        in_step(x, y),
        delivered(y, y2, x, x2, pt, aad, m, fresh, res),
        Some(m.0.dh_public@) != x.dh_recv,
    ensures
        crate::crypto::aead::bytes_result(res) == Ok::<Seq<u8>, AeadError>(pt),
        in_step(y2, x2),
{
    let dh = m.0.dh_public@;
    let n = m.0.n;
    let xs = x.dh_send->0;
    let ys = y.dh_send->0;
    assert(dh == x25519_base(ys));
    assert(n == 0);
    assert(!x.skipped.contains_key((dh, n)));
    assert(ratchet_dh_agrees(x, dh, fresh));
    assert(dh_agrees(xs, dh));
    assert(x25519_shared(xs, dh) == x25519_shared(ys, x25519_base(xs)));
    let s1 = ratchet_if_new(x, dh, fresh);
    assert(s1 == dh_ratchet_spec(x, dh, fresh));
    assert(kdf_rk_spec(x.root, x25519_shared(xs, dh)) == (y.root, y.send_ck->0));
    assert(s1.recv_ck == y.send_ck);
    assert(s1.recv_n == 0);
    assert(skip_chain(s1.recv_ck, s1.recv_n, s1.dh_recv, s1.skipped, 0) == (s1.recv_ck, s1.recv_n, s1.skipped));
    lemma_opens(y, y2, x, x2, pt, aad, m, fresh, res);
}

/// The state of the conversation after `j` turns: the sessions in step, the last speaker
/// first; and every message so far opened to its plaintext.
#[verifier::spinoff_prover]
#[verifier::rlimit(50)]
proof fn lemma_conversation(
    k: (Seq<u8>, Seq<u8>, Seq<u8>),
    a: Seq<u8>,
    turns: Seq<bool>,
    sa: Seq<RatchetView>,
    sb: Seq<RatchetView>,
    pts: Seq<Seq<u8>>,
    aads: Seq<Seq<u8>>,
    msgs: Seq<(MessageHeader, Vec<u8>)>,
    fresh: Seq<Seq<u8>>,
    rs: Seq<Result<Vec<u8>, AeadError>>,
    j: int,
)
    requires
        conversation(k, a, turns, sa, sb, pts, aads, msgs, fresh, rs),
        1 <= j <= turns.len(),
    ensures
        turns[j - 1] ==> in_step(sa[j], sb[j]),
        !turns[j - 1] ==> in_step(sb[j], sa[j]),
        forall|i: int| 0 <= i < j ==> crate::crypto::aead::bytes_result(#[trigger] rs[i]) == Ok::<Seq<u8>, AeadError>(pts[i]),
    decreases j,
{
    let i = j - 1;
    if j == 1 {
        if turns[0] {
            lemma_first_turn(k, a, sa[1], sb[1], pts[0], aads[0], msgs[0], fresh[0], rs[0]);
        } else {
            assert(delivered(sb[0], sb[1], sa[0], sa[1], pts[0], aads[0], msgs[0], fresh[0], rs[0]));
            assert(false);
        }
    } else {
        lemma_conversation(k, a, turns, sa, sb, pts, aads, msgs, fresh, rs, j - 1);
        if turns[i] {
            assert(delivered(sa[i], sa[i + 1], sb[i], sb[i + 1], pts[i], aads[i], msgs[i], fresh[i], rs[i]));
            if turns[i - 1] {
                lemma_same_speaker(sa[i], sb[i], sa[i + 1], sb[i + 1], pts[i], aads[i], msgs[i], fresh[i], rs[i]);
            } else {
                lemma_switch_speaker(sb[i], sa[i], sb[i + 1], sa[i + 1], pts[i], aads[i], msgs[i], fresh[i], rs[i]);
            }
        } else {
            assert(delivered(sb[i], sb[i + 1], sa[i], sa[i + 1], pts[i], aads[i], msgs[i], fresh[i], rs[i]));
            if !turns[i - 1] {
                lemma_same_speaker(sb[i], sa[i], sb[i + 1], sa[i + 1], pts[i], aads[i], msgs[i], fresh[i], rs[i]);
            } else {
                lemma_switch_speaker(sa[i], sb[i], sa[i + 1], sb[i + 1], pts[i], aads[i], msgs[i], fresh[i], rs[i]);
            }
        }
    }
}

/// A conversation of two sessions started from one handshake (keys `k`, initiator sending
/// secret `a`): turn `i` is spoken by the initiator when `turns[i]`, else by the responder; the
/// speaker encrypts `pts[i]` over `aads[i]` into `msgs[i]`, and the listener decrypts it at once
/// (`delivered`), the sessions passing through `sa` and `sb`. When the speaker changes, the
/// new speaker's header key differs from the one the listener last received (fresh key pairs
/// are drawn at random).
pub open spec fn conversation(
    k: (Seq<u8>, Seq<u8>, Seq<u8>),
    a: Seq<u8>,
    turns: Seq<bool>,
    sa: Seq<RatchetView>,
    sb: Seq<RatchetView>,
    pts: Seq<Seq<u8>>,
    aads: Seq<Seq<u8>>,
    msgs: Seq<(MessageHeader, Vec<u8>)>,
    fresh: Seq<Seq<u8>>,
    rs: Seq<Result<Vec<u8>, AeadError>>,
) -> bool {
    &&& a.len() == 32
    &&& sa.len() == turns.len() + 1
    &&& sb.len() == turns.len() + 1
    &&& pts.len() == turns.len()
    &&& aads.len() == turns.len()
    &&& msgs.len() == turns.len()
    &&& fresh.len() == turns.len()
    &&& rs.len() == turns.len()
    &&& sa[0] == initial_view(k, true, a)
    &&& sb[0] == initial_view((k.1, k.0, k.2), false, Seq::empty())
    &&& forall|i: int|
        0 <= i < turns.len() ==> (if turns[i] {
            delivered(sa[i], sa[i + 1], sb[i], sb[i + 1], pts[i], aads[i], msgs[i], fresh[i], rs[i])
        } else {
            delivered(sb[i], sb[i + 1], sa[i], sa[i + 1], pts[i], aads[i], msgs[i], fresh[i], rs[i])
        })
    &&& forall|i: int|
        0 < i < turns.len() && turns[i] != turns[i - 1] ==> Some(msgs[i].0.dh_public@) != (if turns[i] {
            sb[i].dh_recv
        } else {
            sa[i].dh_recv
        })
}

/// The two-way Double Ratchet: in every conversation of two sessions started from one handshake
/// (see `conversation`), whoever speaks, and across every Diffie-Hellman ratchet step that a
/// change of speaker brings, each message the listener decrypts gives back the plaintext the
/// speaker encrypted.
pub proof fn law_conversation(
    k: (Seq<u8>, Seq<u8>, Seq<u8>),
    a: Seq<u8>,
    turns: Seq<bool>,
    sa: Seq<RatchetView>,
    sb: Seq<RatchetView>,
    pts: Seq<Seq<u8>>,
    aads: Seq<Seq<u8>>,
    msgs: Seq<(MessageHeader, Vec<u8>)>,
    fresh: Seq<Seq<u8>>,
    rs: Seq<Result<Vec<u8>, AeadError>>,
)
    requires
        conversation(k, a, turns, sa, sb, pts, aads, msgs, fresh, rs),
    ensures
        forall|i: int| 0 <= i < turns.len() ==> crate::crypto::aead::bytes_result(#[trigger] rs[i]) == Ok::<Seq<u8>, AeadError>(pts[i]),
{
    if turns.len() > 0 {
        lemma_conversation(k, a, turns, sa, sb, pts, aads, msgs, fresh, rs, turns.len() as int);
    }
}

} // verus!
