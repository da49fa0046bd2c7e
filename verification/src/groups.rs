//! Group chats (sender-keys style).
use vstd::prelude::*;
use vstd::string::*;
use crate::assoc::{assoc_view, distinct_keys, find_by_name, lemma_assoc_at, lemma_assoc_push, lemma_assoc_update};
use crate::bytes::{hex_encode, hex_encode_spec, to_array32};
use crate::crypto::aead::{bytes_result, decrypt, decrypt_auto_spec, encrypt, is_sealed, seal_accepts, AeadError, CipherSuite};
use crate::crypto::primitives::{hkdf_sha256, hkdf_sha256_expand, thread_random_bytes};

verus! {

/// A group id.
pub type GroupId = [u8; 32];

/// A member id (a peer id).
pub type MemberId = String;

/// A member's role.
#[derive(Clone, Copy, Debug, PartialEq, Eq, Structural)]
pub enum Role {
    Admin,
    Member,
}

/// A group member.
#[derive(Clone, Debug)]
pub struct GroupMember {
    pub peer_id: MemberId,
    pub role: Role,
    pub identity_public: [u8; 32],
}

/// A group's description.
#[derive(Clone, Debug)]
pub struct GroupMeta {
    pub id: GroupId,
    pub name: String,
    pub created_at: i64,
    pub members: Vec<GroupMember>,
}

struct SenderChain {
    chain_key: [u8; 32],
    n: u32,
}

/// A sender chain as values: chain key and next message number.
pub type ChainView = (Seq<u8>, u32);

/// The state of a group session as values.
pub struct GroupSessionView {
    pub meta: GroupMeta,
    pub send: Option<ChainView>,
    pub recv: Map<Seq<char>, ChainView>,
}

/// A group's session: its description, our sending chain and the members' chains.
pub struct GroupSession {
    pub meta: GroupMeta,
    send_chain: Option<SenderChain>,
    recv_chains: Vec<(String, SenderChain)>,
}

/// `LibertyGroupCK`: HKDF info of the group chain step.
pub open spec fn group_ck_info() -> Seq<u8> {
    seq![76u8, 105, 98, 101, 114, 116, 121, 71, 114, 111, 117, 112, 67, 75]
}

/// Group chain step: (message key, next chain key).
pub open spec fn group_kdf(ck: Seq<u8>) -> (Seq<u8>, Seq<u8>) {
    let h = hkdf_sha256(None, ck, group_ck_info(), 64);
    (h.subrange(0, 32), h.subrange(32, 64))
}

/// The chain key after `k` steps.
pub open spec fn group_advance(ck: Seq<u8>, k: nat) -> Seq<u8>
    decreases k,
{
    if k == 0 {
        ck
    } else {
        group_kdf(group_advance(ck, (k - 1) as nat)).1
    }
}

/// A member's chain after receiving message `n`: the message key and the chain after it.
pub open spec fn group_receive(c: ChainView, n: u32) -> (Seq<u8>, ChainView) {
    let ck = if c.1 < n { group_advance(c.0, (n - c.1) as nat) } else { c.0 };
    let at = if c.1 < n { n } else { c.1 };
    (group_kdf(ck).0, (group_kdf(ck).1, (at + 1) as u32))
}

spec fn chain_view(c: SenderChain) -> ChainView {
    (c.chain_key@, c.n)
}

/// The view of a member-id key.
pub open spec fn member_key() -> spec_fn(String) -> Seq<char> {
    |k: String| k@
}

spec fn chain_value() -> spec_fn(SenderChain) -> ChainView {
    |c: SenderChain| (c.chain_key@, c.n)
}

impl View for GroupSession {
    type V = GroupSessionView;

    closed spec fn view(&self) -> GroupSessionView {
        GroupSessionView {
            meta: self.meta,
            send: match self.send_chain {
                Some(c) => Some(chain_view(c)),
                None => None,
            },
            recv: assoc_view(self.recv_chains@, member_key(), chain_value()),
        }
    }
}

/// The current time in seconds since the Unix epoch (`chrono::Utc::now().timestamp()`);
/// nothing is stated of it.
#[verifier::external_body]
fn group_now() -> (r: i64) {
    chrono::Utc::now().timestamp()
}

fn kdf_ck(chain_key: &[u8; 32]) -> (r: ([u8; 32], [u8; 32]))
    ensures
        (r.0@, r.1@) == group_kdf(chain_key@),
{
    let info: [u8; 14] = [76, 105, 98, 101, 114, 116, 121, 71, 114, 111, 117, 112, 67, 75];
    assert(info@ =~= group_ck_info());
    let okm = hkdf_sha256_expand(None, chain_key.as_slice(), info.as_slice(), 64);
    (to_array32(&okm.as_slice()[0..32]), to_array32(&okm.as_slice()[32..64]))
}

impl GroupSession {
    #[verifier::type_invariant]
    spec fn members_distinct(self) -> bool {
        distinct_keys(self.recv_chains@, member_key())
    }

    /// A new group named `name` with `admin_peer` as its only member (an admin), a random id, the
    /// current time as creation time, a random sending chain at message 0 and no member chains.
    pub fn create(name: &str, admin_peer: &str, admin_identity: [u8; 32]) -> (r: Self)
        ensures
            r@.meta.name@ == name@,
            r@.meta.members@.len() == 1,
            r@.meta.members@[0].peer_id@ == admin_peer@,
            r@.meta.members@[0].role == Role::Admin,
            r@.meta.members@[0].identity_public == admin_identity,
            r@.send matches Some(c) && c.0.len() == 32 && c.1 == 0,
            r@.recv == Map::<Seq<char>, ChainView>::empty(),
    {
        let id_v = thread_random_bytes(32);
        let id = to_array32(id_v.as_slice());
        let mut members: Vec<GroupMember> = Vec::new();
        members.push(GroupMember { peer_id: String::from_str(admin_peer), role: Role::Admin, identity_public: admin_identity });
        let meta = GroupMeta { id, name: String::from_str(name), created_at: group_now(), members };
        let ck_v = thread_random_bytes(32);
        let ck = to_array32(ck_v.as_slice());
        let s = GroupSession { meta, send_chain: Some(SenderChain { chain_key: ck, n: 0 }), recv_chains: Vec::new() };
        assert(s@.recv =~= Map::<Seq<char>, ChainView>::empty());
        s
    }

    /// Encrypts the next message of our sending chain with the group id as associated data and
    /// returns its number and ciphertext. `Encrypt` (no change) without a sending chain; the
    /// chain advances even when the cipher refuses the lengths.
    pub fn encrypt(&mut self, plaintext: &[u8]) -> (r: Result<(u32, Vec<u8>), AeadError>)
        requires
            old(self)@.send matches Some(c) ==> c.1 < u32::MAX,
        ensures
            final(self)@.meta == old(self)@.meta,
            final(self)@.recv == old(self)@.recv,
            old(self)@.send is None ==> r == Err::<(u32, Vec<u8>), AeadError>(AeadError::Encrypt) && final(self)@
                == old(self)@,
            old(self)@.send matches Some(c) ==> {
                &&& final(self)@.send == Some((group_kdf(c.0).1, (c.1 + 1) as u32))
                &&& (r is Ok <==> seal_accepts(CipherSuite::Aes256Gcm, plaintext@.len(), 32))
                &&& r matches Err(e) ==> e == AeadError::Encrypt
                &&& r matches Ok(t) ==> t.0 == c.1 && t.1@.len() == 29 + plaintext@.len() && is_sealed(
                    t.1@,
                    CipherSuite::Aes256Gcm,
                    group_kdf(c.0).0,
                    plaintext@,
                    old(self)@.meta.id@,
                )
            },
    {
        proof { use_type_invariant(&*self); }
        let (ck, n) = match &self.send_chain {
            Some(c) => (c.chain_key, c.n),
            None => return Err(AeadError::Encrypt),
        };
        let (mk, next) = kdf_ck(&ck);
        self.send_chain = Some(SenderChain { chain_key: next, n: n + 1 });
        match encrypt(&mk, plaintext, self.meta.id.as_slice()) {
            Ok(ct) => Ok((n, ct)),
            Err(e) => Err(e),
        }
    }

    /// Decrypts message `n` from member `from`: `Decrypt` (no change) when there is no chain for
    /// `from`; otherwise that chain is advanced to message `n` (when behind), used for it and
    /// moved past it, and the message is opened with the group id as associated data.
    pub fn decrypt(&mut self, from: &str, n: u32, ciphertext: &[u8]) -> (r: Result<Vec<u8>, AeadError>)
        requires
            old(self)@.recv.contains_key(from@) ==> (if old(self)@.recv[from@].1 < n {
                n
            } else {
                old(self)@.recv[from@].1
            }) < u32::MAX,
        ensures
            final(self)@.meta == old(self)@.meta,
            final(self)@.send == old(self)@.send,
            !old(self)@.recv.contains_key(from@) ==> r == Err::<Vec<u8>, AeadError>(AeadError::Decrypt)
                && final(self)@ == old(self)@,
            old(self)@.recv.contains_key(from@) ==> {
                let g = group_receive(old(self)@.recv[from@], n);
                &&& final(self)@.recv == old(self)@.recv.insert(from@, g.1)
                &&& bytes_result(r) == decrypt_auto_spec(g.0, ciphertext@, old(self)@.meta.id@)
                &&& forall|s: CipherSuite, m: Seq<u8>|
                    #[trigger] is_sealed(ciphertext@, s, g.0, m, old(self)@.meta.id@) && seal_accepts(s, m.len(), 32)
                        ==> bytes_result(r) == Ok::<Seq<u8>, AeadError>(m)
            },
    {
        proof { use_type_invariant(&*self); }
        let key = String::from_str(from);
        let i = match find_by_name(&self.recv_chains, &key) {
            Some(i) => i,
            None => {
                proof {
                    if old(self)@.recv.contains_key(from@) {
                        let j = choose|j: int| 0 <= j < self.recv_chains@.len() && self.recv_chains@[j].0@ == from@;
                    }
                }
                return Err(AeadError::Decrypt);
            },
        };
        proof { lemma_assoc_at(self.recv_chains@, member_key(), chain_value(), i as int); }
        let mut ck = self.recv_chains[i].1.chain_key;
        let mut cn = self.recv_chains[i].1.n;
        let ghost c0 = (ck@, cn);
        assert(c0 == old(self)@.recv[from@]);
        assert(group_advance(c0.0, 0) == c0.0);
        while cn < n
            invariant
                c0.1 <= cn,
                c0.1 < n ==> cn <= n,
                c0.1 >= n ==> cn == c0.1,
                ck@ == group_advance(c0.0, (cn - c0.1) as nat),
            decreases n - cn,
        {
            let (_, next) = kdf_ck(&ck);
            ck = next;
            cn = cn + 1;
            assert(ck@ == group_advance(c0.0, (cn - c0.1) as nat));
        }
        let (mk, next) = kdf_ck(&ck);
        let ghost g = group_receive(c0, n);
        assert(mk@ == g.0);
        let mut chains: Vec<(String, SenderChain)> = Vec::new();
        std::mem::swap(&mut chains, &mut self.recv_chains);
        let (name, _) = chains.remove(i);
        let entry = (name, SenderChain { chain_key: next, n: cn + 1 });
        proof { lemma_assoc_update(old(self).recv_chains@, member_key(), chain_value(), i as int, entry); }
        chains.insert(i, entry);
        assert(chains@ =~= old(self).recv_chains@.update(i as int, entry));
        self.recv_chains = chains;
        decrypt(&mk, ciphertext, self.meta.id.as_slice())
    }
}

/// Groups by hex id: `ids[i]` names `groups[i]`.
pub struct GroupManager {
    ids: Vec<String>,
    groups: Vec<GroupSession>,
}

/// The view of a group-session value.
pub open spec fn group_value() -> spec_fn(GroupSession) -> GroupSessionView {
    |g: GroupSession| g@
}

/// The groups paired with their ids.
pub open spec fn id_entries(ids: Seq<String>, gs: Seq<GroupSession>) -> Seq<(String, GroupSession)> {
    Seq::new(ids.len(), |i: int| (ids[i], gs[i]))
}

impl View for GroupManager {
    type V = Map<Seq<char>, GroupSessionView>;

    closed spec fn view(&self) -> Map<Seq<char>, GroupSessionView> {
        assoc_view(id_entries(self.ids@, self.groups@), member_key(), group_value())
    }
}

fn find_id(ids: &Vec<String>, key: &String) -> (r: Option<usize>)
    ensures
        r matches Some(i) ==> i < ids@.len() && ids@[i as int]@ == key@,
        r is None ==> forall|i: int| 0 <= i < ids@.len() ==> ids@[i]@ != key@,
{
    let len = ids.len();
    let mut i: usize = 0;
    while i < len
        invariant
            len == ids@.len(),
            i <= len,
            forall|j: int| 0 <= j < i ==> ids@[j]@ != key@,
        decreases len - i,
    {
        if ids[i] == *key {
            return Some(i);
        }
        i = i + 1;
    }
    None
}

proof fn lemma_ids_entries(ids: Seq<String>, gs: Seq<GroupSession>)
    requires
        ids.len() == gs.len(),
        forall|i: int, j: int| 0 <= i < ids.len() && 0 <= j < ids.len() && i != j ==> #[trigger] ids[i]@ != #[trigger] ids[j]@,
    ensures
        distinct_keys(id_entries(ids, gs), member_key()),
{
    assert forall|i: int, j: int|
        0 <= i < id_entries(ids, gs).len() && 0 <= j < id_entries(ids, gs).len() && i != j implies member_key()(
            id_entries(ids, gs)[i].0,
        ) != member_key()(id_entries(ids, gs)[j].0) by {
        assert(ids[i]@ != ids[j]@);
    }
}

impl GroupManager {
    /// Every group has an id, and no two groups share one.
    #[verifier::type_invariant]
    spec fn ids_distinct(self) -> bool {
        &&& self.ids@.len() == self.groups@.len()
        &&& forall|i: int, j: int|
            0 <= i < self.ids@.len() && 0 <= j < self.ids@.len() && i != j ==> #[trigger] self.ids@[i]@
                != #[trigger] self.ids@[j]@
    }

    /// No groups.
    pub fn new() -> (r: Self)
        ensures
            r@ == Map::<Seq<char>, GroupSessionView>::empty(),
    {
        let r = GroupManager { ids: Vec::new(), groups: Vec::new() };
        assert(r@ =~= Map::<Seq<char>, GroupSessionView>::empty());
        r
    }

    /// Creates a group (see `GroupSession::create`) and returns its hex id, under which it is kept.
    pub fn create(&mut self, name: &str, admin: &str, id_pub: [u8; 32]) -> (r: String)
        ensures
            r@ == hex_encode_spec(final(self)@[r@].meta.id@),
            exists|g: GroupSessionView|
                final(self)@ == old(self)@.insert(r@, g) && #[trigger] g.meta.name@ == name@ && g.meta.members@.len()
                    == 1 && g.meta.members@[0].peer_id@ == admin@ && g.meta.members@[0].role == Role::Admin
                    && g.meta.members@[0].identity_public == id_pub && (g.send matches Some(c) && c.0.len() == 32
                    && c.1 == 0) && g.recv == Map::<Seq<char>, ChainView>::empty(),
    {
        proof { use_type_invariant(&*self); }
        let g = GroupSession::create(name, admin, id_pub);
        let key = hex_encode(g.meta.id.as_slice());
        let ghost gv = g@;
        let k2 = key.clone();
        let mut taken = GroupManager { ids: Vec::new(), groups: Vec::new() };
        std::mem::swap(&mut taken, self);
        let GroupManager { mut ids, mut groups } = taken;
        let ghost old_entries = id_entries(ids@, groups@);
        assert(old_entries == id_entries(old(self).ids@, old(self).groups@));
        proof { lemma_ids_entries(ids@, groups@); }
        match find_id(&ids, &key) {
            Some(i) => {
                proof { lemma_assoc_update(old_entries, member_key(), group_value(), i as int, (k2, g)); }
                ids.set(i, k2);
                groups.set(i, g);
                assert(id_entries(ids@, groups@) =~= old_entries.update(i as int, (k2, g)));
            },
            None => {
                proof {
                    if assoc_view(old_entries, member_key(), group_value()).contains_key(key@) {
                        let j = choose|j: int| 0 <= j < old_entries.len() && old_entries[j].0@ == key@;
                        assert(ids@[j]@ == key@);
                    }
                    lemma_assoc_push(old_entries, member_key(), group_value(), (k2, g));
                }
                ids.push(k2);
                groups.push(g);
                assert(id_entries(ids@, groups@) =~= old_entries.push((k2, g)));
            },
        }
        assert forall|i: int, j: int|
            0 <= i < ids@.len() && 0 <= j < ids@.len() && i != j implies #[trigger] ids@[i]@ != #[trigger] ids@[j]@ by {
            assert(id_entries(ids@, groups@)[i].0 == ids@[i]);
            assert(id_entries(ids@, groups@)[j].0 == ids@[j]);
        }
        *self = GroupManager { ids, groups };
        assert(gv.meta.name@ == name@);
        key
    }

    /// The group kept under `id_hex`, for changing.
    pub fn get_mut(&mut self, id_hex: &str) -> (r: Option<&mut GroupSession>)
        ensures
            r is None <==> !old(self)@.contains_key(id_hex@),
            r is None ==> final(self)@ == old(self)@,
            r matches Some(g) ==> (*g)@ == old(self)@[id_hex@] && final(self)@ == old(self)@.insert(
                id_hex@,
                (*final(g))@,
            ),
    {
        proof { use_type_invariant(&*self); }
        let key = String::from_str(id_hex);
        let ghost old_entries = id_entries(self.ids@, self.groups@);
        proof { lemma_ids_entries(self.ids@, self.groups@); }
        match find_id(&self.ids, &key) {
            Some(i) => {
                proof {
                    lemma_assoc_at(old_entries, member_key(), group_value(), i as int);
                }
                let ghost old_ids = self.ids@;
                let ghost old_groups = self.groups@;
                let g = &mut self.groups[i];
                proof {
                    assert(id_entries(old_ids, old_groups.update(i as int, *final(g))) =~= old_entries.update(
                        i as int,
                        (old_ids[i as int], *final(g)),
                    ));
                    lemma_assoc_update(old_entries, member_key(), group_value(), i as int, (old_ids[i as int], *final(g)));
                }
                Some(g)
            },
            None => {
                proof {
                    if old(self)@.contains_key(id_hex@) {
                        let j = choose|j: int| 0 <= j < old_entries.len() && old_entries[j].0@ == id_hex@;
                        assert(self.ids@[j]@ == id_hex@);
                    }
                }
                None
            },
        }
    }
}

impl Default for GroupManager {
    fn default() -> (r: Self)
        ensures
            r@ == Map::<Seq<char>, GroupSessionView>::empty(),
    {
        Self::new()
    }
}

/// Our sending chain after `k` messages sent from chain `c`.
pub open spec fn group_sent_after(c: ChainView, k: nat) -> ChainView
    decreases k,
{
    if k == 0 {
        c
    } else {
        let p = group_sent_after(c, (k - 1) as nat);
        (group_kdf(p.0).1, (p.1 + 1) as u32)
    }
}

/// Successive messages of a group: after `k` messages from a sending chain that started at
/// `ck` with number 0, the next message is numbered `k` and sealed with the `k`-th message key
/// of the chain; a member whose chain for us starts at `ck` derives that same key for message
/// `k`, whichever message it received last before.
pub proof fn law_group_sequence(ck: Seq<u8>, k: nat)
    requires
        k < u32::MAX,
    ensures
        group_sent_after((ck, 0u32), k) == (group_advance(ck, k), k as u32),
        group_kdf(group_sent_after((ck, 0u32), k).0).0 == group_receive((ck, 0u32), k as u32).0,
    decreases k,
{
    if k > 0 {
        law_group_sequence(ck, (k - 1) as nat);
    }
}

/// The groups after creations that returned `ids[i]` for groups `gs[i]`, from none.
pub open spec fn groups_after(ids: Seq<Seq<char>>, gs: Seq<GroupSessionView>) -> Map<Seq<char>, GroupSessionView>
    decreases ids.len(),
{
    if ids.len() == 0 || gs.len() == 0 {
        Map::empty()
    } else {
        groups_after(ids.drop_last(), gs.drop_last()).insert(ids.last(), gs.last())
    }
}

/// After `new` and creations that returned `ids` (as `create` states each step), a lookup finds
/// a group exactly under an id that some creation returned: an id never returned finds none.
pub proof fn law_group_ids(ids: Seq<Seq<char>>, gs: Seq<GroupSessionView>)
    requires
        ids.len() == gs.len(),
    ensures
        forall|s: Seq<char>| #[trigger] groups_after(ids, gs).contains_key(s) <==> ids.contains(s),
    decreases ids.len(),
{
    if ids.len() > 0 {
        let q = ids.drop_last();
        law_group_ids(q, gs.drop_last());
        assert(groups_after(ids, gs) == groups_after(q, gs.drop_last()).insert(ids.last(), gs.last()));
        assert forall|s: Seq<char>| #[trigger] groups_after(ids, gs).contains_key(s) <==> ids.contains(s) by {
            if ids.contains(s) && s != ids.last() {
                let x = choose|x: int| 0 <= x < ids.len() && ids[x] == s;
                assert(x < ids.len() - 1);
                assert(q[x] == s);
            }
            if q.contains(s) {
                let x = choose|x: int| 0 <= x < q.len() && q[x] == s;
                assert(ids[x] == s);
            }
            if s == ids.last() {
                assert(ids[ids.len() - 1] == s);
            }
        }
    }
}

} // verus!
