//! MLS-style group scaffolding (not the full RFC 9420 protocol).
use vstd::prelude::*;
use vstd::string::*;

verus! {

/// What a member publishes so that it can be added to a group.
#[derive(Clone, Debug)]
pub struct KeyPackage {
    pub peer_id: String,
    pub identity_public: [u8; 32],
    pub init_key: [u8; 32],
}

/// The message that admits a new member.
#[derive(Clone, Debug)]
pub struct Welcome {
    pub group_id: [u8; 32],
    pub epoch: u64,
    pub encrypted_group_secrets: Vec<u8>,
}

/// A change to the group that starts a new epoch.
#[derive(Clone, Debug)]
pub struct Commit {
    pub epoch: u64,
    pub proposals: Vec<u8>,
    pub path_secret: Option<Vec<u8>>,
}

/// An application message of a group.
#[derive(Clone, Debug)]
pub struct MlsMessage {
    pub group_id: [u8; 32],
    pub epoch: u64,
    pub ciphertext: Vec<u8>,
}

/// A group: its id, its epoch and its members in order of joining.
#[derive(Clone, Debug)]
pub struct MlsGroup {
    pub group_id: [u8; 32],
    pub epoch: u64,
    pub members: Vec<String>,
}

/// The member ids of a list of members.
pub open spec fn member_ids(m: Seq<String>) -> Seq<Seq<char>> {
    m.map_values(|s: String| s@)
}

fn contains_name(v: &Vec<String>, key: &String) -> (r: bool)
    ensures
        r == member_ids(v@).contains(key@),
{
    let n = v.len();
    let mut i: usize = 0;
    while i < n
        invariant
            n == v@.len(),
            i <= n,
            forall|j: int| 0 <= j < i ==> v@[j]@ != key@,
        decreases n - i,
    {
        if v[i] == *key {
            assert(member_ids(v@)[i as int] == key@);
            return true;
        }
        i = i + 1;
    }
    assert forall|j: int| 0 <= j < member_ids(v@).len() implies member_ids(v@)[j] != key@ by {
        assert(member_ids(v@)[j] == v@[j]@);
    }
    false
}

impl MlsGroup {
    /// A group at epoch 0 whose only member is `creator`.
    pub fn new(group_id: [u8; 32], creator: &str) -> (r: Self)
        ensures
            r.group_id == group_id,
            r.epoch == 0,
            member_ids(r.members@) == seq![creator@],
    {
        let mut members: Vec<String> = Vec::new();
        members.push(String::from_str(creator));
        let r = MlsGroup { group_id, epoch: 0, members };
        assert(member_ids(r.members@) =~= seq![creator@]);
        r
    }

    /// Adds `peer_id` unless it is already a member; an addition starts a new epoch.
    pub fn add_member(&mut self, peer_id: &str)
        requires
            !member_ids(old(self).members@).contains(peer_id@) ==> old(self).epoch < u64::MAX,
        ensures
            final(self).group_id == old(self).group_id,
            member_ids(old(self).members@).contains(peer_id@) ==> final(self).epoch == old(self).epoch
                && member_ids(final(self).members@) == member_ids(old(self).members@),
            !member_ids(old(self).members@).contains(peer_id@) ==> final(self).epoch == old(self).epoch + 1
                && member_ids(final(self).members@) == member_ids(old(self).members@).push(peer_id@),
            (member_ids(final(self).members@), final(self).epoch as int) == mls_add(
                member_ids(old(self).members@),
                old(self).epoch as int,
                peer_id@,
            ),
    {
        let key = String::from_str(peer_id);
        if contains_name(&self.members, &key) {
            return;
        }
        assert(!member_ids(self.members@).contains(peer_id@));
        self.members.push(key);
        self.epoch = self.epoch + 1;
        assert(member_ids(self.members@) =~= member_ids(old(self).members@).push(peer_id@));
    }
}

/// Members and epoch after `add_member(p)` on a group with `members` at `epoch`.
pub open spec fn mls_add(members: Seq<Seq<char>>, epoch: int, p: Seq<char>) -> (Seq<Seq<char>>, int) {
    if members.contains(p) {
        (members, epoch)
    } else {
        (members.push(p), epoch + 1)
    }
}

/// Members and epoch of a group created by `creator` after adding each of `adds` in turn.
pub open spec fn mls_after(creator: Seq<char>, adds: Seq<Seq<char>>) -> (Seq<Seq<char>>, int)
    decreases adds.len(),
{
    if adds.len() == 0 {
        (seq![creator], 0)
    } else {
        let p = mls_after(creator, adds.drop_last());
        mls_add(p.0, p.1, adds.last())
    }
}

/// After any sequence of additions, the creator comes first, every added peer is a member, no
/// member appears twice, and the epoch is the number of members less one.
pub proof fn law_mls_members(creator: Seq<char>, adds: Seq<Seq<char>>)
    ensures
        mls_after(creator, adds).0.len() > 0,
        mls_after(creator, adds).0[0] == creator,
        forall|i: int, j: int|
            0 <= i < j < mls_after(creator, adds).0.len() ==> mls_after(creator, adds).0[i] != mls_after(
                creator,
                adds,
            ).0[j],
        mls_after(creator, adds).1 == mls_after(creator, adds).0.len() - 1,
        forall|i: int| 0 <= i < adds.len() ==> mls_after(creator, adds).0.contains(#[trigger] adds[i]),
    decreases adds.len(),
{
    if adds.len() > 0 {
        let q = adds.drop_last();
        law_mls_members(creator, q);
        let prev = mls_after(creator, q);
        let now = mls_after(creator, adds);
        assert forall|i: int| 0 <= i < adds.len() implies now.0.contains(#[trigger] adds[i]) by {
            if i < adds.len() - 1 {
                assert(adds[i] == q[i]);
                assert(prev.0.contains(q[i]));
                let x = choose|x: int| 0 <= x < prev.0.len() && prev.0[x] == q[i];
                if !prev.0.contains(adds.last()) {
                    assert(now.0[x] == q[i]);
                }
            } else {
                if !prev.0.contains(adds.last()) {
                    assert(now.0[prev.0.len() as int] == adds.last());
                }
            }
        }
    }
}

} // verus!
