//! Federated mode and mesh discovery settings.
use vstd::prelude::*;
use vstd::string::*;

verus! {

/// A federation peer: a name, its addresses, optional wake and privacy URLs, and a priority
/// (lower first).
#[derive(Clone, Debug)]
pub struct FederationPeer {
    pub name: String,
    pub multiaddrs: Vec<String>,
    pub wake_url: Option<String>,
    pub privacy_url: Option<String>,
    pub priority: u32,
}

/// How a node finds peers.
#[derive(Clone, Copy, Debug, PartialEq, Eq, Structural)]
pub enum FederationMode {
    LocalMesh,
    Federated,
    Private,
}

/// Federation settings.
#[derive(Clone, Debug)]
pub struct FederationConfig {
    pub mode: FederationMode,
    pub local_name: String,
    pub peers: Vec<FederationPeer>,
    pub open_discovery: bool,
    pub max_bootstrap: u32,
}

impl Default for FederationConfig {
    /// Federated mode, named `liberty-node`, no peers, open discovery, at most 8 bootstrap addresses.
    fn default() -> (r: Self)
        ensures
            r.mode == FederationMode::Federated,
            r.local_name@ == "liberty-node"@,
            r.peers@.len() == 0,
            r.open_discovery,
            r.max_bootstrap == 8,
    {
        FederationConfig {
            mode: FederationMode::Federated,
            local_name: String::from_str("liberty-node"),
            peers: Vec::new(),
            open_discovery: true,
            max_bootstrap: 8,
        }
    }
}

/// Text values of a list of strings.
pub open spec fn texts(s: Seq<String>) -> Seq<Seq<char>> {
    s.map_values(|x: String| x@)
}

/// A peer's values: (name, addresses, wake URL, privacy URL, priority).
pub open spec fn peer_view(p: FederationPeer) -> (Seq<char>, Seq<Seq<char>>, Option<Seq<char>>, Option<Seq<char>>, u32) {
    (
        p.name@,
        texts(p.multiaddrs@),
        match p.wake_url {
            Some(u) => Some(u@),
            None => None,
        },
        match p.privacy_url {
            Some(u) => Some(u@),
            None => None,
        },
        p.priority,
    )
}

/// The peers' values.
pub open spec fn peers_view(ps: Seq<FederationPeer>) -> Seq<(Seq<char>, Seq<Seq<char>>, Option<Seq<char>>, Option<Seq<char>>, u32)> {
    ps.map_values(|p: FederationPeer| peer_view(p))
}

/// The settings' values.
pub open spec fn config_view(c: FederationConfig) -> (FederationMode, Seq<char>, Seq<(Seq<char>, Seq<Seq<char>>, Option<Seq<char>>, Option<Seq<char>>, u32)>, bool, u32) {
    (c.mode, c.local_name@, peers_view(c.peers@), c.open_discovery, c.max_bootstrap)
}

/// `t` (ordered by priority) with `x` placed after every element of priority at most its own.
pub open spec fn insert_by_priority(t: Seq<FederationPeer>, x: FederationPeer) -> Seq<FederationPeer>
    decreases t.len(),
{
    if t.len() == 0 {
        seq![x]
    } else if t.last().priority <= x.priority {
        t.push(x)
    } else {
        insert_by_priority(t.drop_last(), x).push(t.last())
    }
}

/// The peers stably sorted by priority: ascending, peers of equal priority in their order.
pub open spec fn sort_by_priority(s: Seq<FederationPeer>) -> Seq<FederationPeer>
    decreases s.len(),
{
    if s.len() == 0 {
        Seq::empty()
    } else {
        insert_by_priority(sort_by_priority(s.drop_last()), s.last())
    }
}

/// The nonempty addresses among `ms`, in order.
pub open spec fn nonempty_addrs(ms: Seq<String>) -> Seq<Seq<char>>
    decreases ms.len(),
{
    if ms.len() == 0 {
        Seq::empty()
    } else if ms.last()@.len() > 0 {
        nonempty_addrs(ms.drop_last()).push(ms.last()@)
    } else {
        nonempty_addrs(ms.drop_last())
    }
}

/// The nonempty addresses of the peers, peer after peer.
pub open spec fn peer_addrs(ps: Seq<FederationPeer>) -> Seq<Seq<char>>
    decreases ps.len(),
{
    if ps.len() == 0 {
        Seq::empty()
    } else {
        peer_addrs(ps.drop_last()) + nonempty_addrs(ps.last().multiaddrs@)
    }
}

/// The bootstrap addresses: none in local-mesh mode; otherwise the nonempty addresses of the
/// peers taken in priority order, at most `max_bootstrap` of them.
pub open spec fn bootstrap_spec(c: FederationConfig) -> Seq<Seq<char>> {
    if c.mode == FederationMode::LocalMesh {
        Seq::empty()
    } else {
        let all = peer_addrs(sort_by_priority(c.peers@));
        if all.len() <= c.max_bootstrap {
            all
        } else {
            all.subrange(0, c.max_bootstrap as int)
        }
    }
}

/// Whether mesh discovery runs: in local-mesh and federated mode.
pub open spec fn mesh_enabled_spec(c: FederationConfig) -> bool {
    c.mode == FederationMode::LocalMesh || c.mode == FederationMode::Federated
}

/// The index of the first peer named `name`, if any.
pub open spec fn first_named(ps: Seq<FederationPeer>, name: Seq<char>) -> Option<int> {
    if exists|i: int| 0 <= i < ps.len() && ps[i].name@ == name {
        Some(choose|i: int| 0 <= i < ps.len() && ps[i].name@ == name && forall|j: int| 0 <= j < i ==> ps[j].name@ != name)
    } else {
        None
    }
}

fn clone_opt_string(o: &Option<String>) -> (r: Option<String>)
    ensures
        r == *o,
{
    match o {
        Some(s) => Some(s.clone()),
        None => None,
    }
}

fn clone_strings(v: &Vec<String>) -> (r: Vec<String>)
    ensures
        r@ == v@,
{
    let mut out: Vec<String> = Vec::new();
    let n = v.len();
    let mut i: usize = 0;
    while i < n
        invariant
            n == v@.len(),
            i <= n,
            out@ == v@.subrange(0, i as int),
        decreases n - i,
    {
        out.push(v[i].clone());
        i = i + 1;
        assert(out@ =~= v@.subrange(0, i as int));
    }
    assert(v@.subrange(0, n as int) =~= v@);
    out
}

fn clone_peer(p: &FederationPeer) -> (r: FederationPeer)
    ensures
        peer_view(r) == peer_view(*p),
{
    FederationPeer {
        name: p.name.clone(),
        multiaddrs: clone_strings(&p.multiaddrs),
        wake_url: clone_opt_string(&p.wake_url),
        privacy_url: clone_opt_string(&p.privacy_url),
        priority: p.priority,
    }
}

/// A copy of the settings.
pub fn get_config(cfg: &FederationConfig) -> (r: FederationConfig)
    ensures
        config_view(r) == config_view(*cfg),
{
    let mut peers: Vec<FederationPeer> = Vec::new();
    let n = cfg.peers.len();
    let mut i: usize = 0;
    while i < n
        invariant
            n == cfg.peers@.len(),
            i <= n,
            peers_view(peers@) == peers_view(cfg.peers@.subrange(0, i as int)),
        decreases n - i,
    {
        let ghost before = peers_view(peers@);
        let c = clone_peer(&cfg.peers[i]);
        let ghost cv = peer_view(c);
        peers.push(c);
        assert(peers_view(peers@) =~= before.push(cv));
        assert(peers_view(cfg.peers@.subrange(0, i + 1)) =~= peers_view(cfg.peers@.subrange(0, i as int)).push(
            peer_view(cfg.peers@[i as int]),
        ));
        i = i + 1;
    }
    assert(cfg.peers@.subrange(0, n as int) =~= cfg.peers@);
    FederationConfig {
        mode: cfg.mode,
        local_name: cfg.local_name.clone(),
        peers,
        open_discovery: cfg.open_discovery,
        max_bootstrap: cfg.max_bootstrap,
    }
}

/// Replaces the settings.
pub fn set_config(current: &mut FederationConfig, cfg: FederationConfig)
    ensures
        *final(current) == cfg,
{
    *current = cfg;
}

/// Adds `peer`, replacing the first peer of the same name if there is one.
pub fn add_peer(cfg: &mut FederationConfig, peer: FederationPeer)
    ensures
        final(cfg).mode == old(cfg).mode,
        final(cfg).local_name == old(cfg).local_name,
        final(cfg).open_discovery == old(cfg).open_discovery,
        final(cfg).max_bootstrap == old(cfg).max_bootstrap,
        final(cfg).peers@ == match first_named(old(cfg).peers@, peer.name@) {
            Some(i) => old(cfg).peers@.update(i, peer),
            None => old(cfg).peers@.push(peer),
        },
{
    let n = cfg.peers.len();
    let mut i: usize = 0;
    while i < n
        invariant
            n == cfg.peers@.len(),
            i <= n,
            cfg.peers@ == old(cfg).peers@,
            *cfg == *old(cfg),
            forall|j: int| 0 <= j < i ==> cfg.peers@[j].name@ != peer.name@,
        decreases n - i,
    {
        if cfg.peers[i].name == peer.name {
            proof {
                let ps = old(cfg).peers@;
                assert(exists|k: int| 0 <= k < ps.len() && ps[k].name@ == peer.name@);
                let c = choose|k: int| 0 <= k < ps.len() && ps[k].name@ == peer.name@ && forall|j: int| 0 <= j < k ==> ps[j].name@ != peer.name@;
                assert(forall|j: int| 0 <= j < i ==> ps[j].name@ != peer.name@);
                assert(c == i as int);
            }
            cfg.peers[i] = peer;
            return;
        }
        i = i + 1;
    }
    cfg.peers.push(peer);
}

proof fn lemma_insert_from(t: Seq<FederationPeer>, x: FederationPeer, j: int)
    requires
        0 <= j <= t.len(),
        forall|k: int| j <= k < t.len() ==> t[k].priority > x.priority,
    ensures
        insert_by_priority(t, x) == insert_by_priority(t.subrange(0, j), x) + t.subrange(j, t.len() as int),
    decreases t.len() - j,
{
    if j == t.len() {
        assert(t.subrange(0, j) =~= t);
        assert(t.subrange(j, t.len() as int) =~= Seq::<FederationPeer>::empty());
        assert(insert_by_priority(t.subrange(0, j), x) + Seq::<FederationPeer>::empty() =~= insert_by_priority(t, x));
    } else {
        let t2 = t.drop_last();
        lemma_insert_from(t2, x, j);
        assert(t2.subrange(0, j) =~= t.subrange(0, j));
        assert(t.subrange(j, t.len() as int) =~= t2.subrange(j, t2.len() as int).push(t.last()));
        assert(insert_by_priority(t, x) == insert_by_priority(t2, x).push(t.last()));
        assert((insert_by_priority(t.subrange(0, j), x) + t2.subrange(j, t2.len() as int)).push(t.last())
            =~= insert_by_priority(t.subrange(0, j), x) + t.subrange(j, t.len() as int));
    }
}

/// The peers that a list of references points to.
pub open spec fn derefs(s: Seq<&FederationPeer>) -> Seq<FederationPeer> {
    s.map_values(|p: &FederationPeer| *p)
}

fn insert_ref<'a>(out: &mut Vec<&'a FederationPeer>, x: &'a FederationPeer)
    ensures
        derefs(final(out)@) == insert_by_priority(derefs(old(out)@), *x),
{
    let ghost t = derefs(out@);
    out.push(x);
    let mut j: usize = out.len() - 1;
    assert(derefs(out@) =~= t.subrange(0, j as int).push(*x) + t.subrange(j as int, t.len() as int));
    while j > 0 && out[j - 1].priority > x.priority
        invariant
            j < out@.len(),
            out@.len() == t.len() + 1,
            derefs(out@) == t.subrange(0, j as int).push(*x) + t.subrange(j as int, t.len() as int),
            forall|k: int| j <= k < t.len() ==> t[k].priority > x.priority,
        decreases j,
    {
        let prev = out[j - 1];
        assert(t[j - 1] == *prev) by {
            assert(derefs(out@)[j - 1] == *out@[j - 1]);
        }
        let ghost jj = j as int;
        let ghost before = out@;
        out[j] = prev;
        out[j - 1] = x;
        j = j - 1;
        assert forall|k: int| 0 <= k < out@.len() implies derefs(out@)[k] == (t.subrange(0, j as int).push(*x) + t.subrange(
            j as int,
            t.len() as int,
        ))[k] by {
            assert(derefs(out@)[k] == *out@[k]);
            assert(derefs(before)[k] == *before[k]);
            if k < jj - 1 {
                assert(out@[k] == before[k]);
            } else if k == jj - 1 {
            } else if k == jj {
            } else {
                assert(out@[k] == before[k]);
            }
        }
        assert(derefs(out@) =~= t.subrange(0, j as int).push(*x) + t.subrange(j as int, t.len() as int));
    }
    proof {
        lemma_insert_from(t, *x, j as int);
        let h = t.subrange(0, j as int);
        if j > 0 {
            assert(derefs(out@)[j - 1] == *out@[j - 1]);
            assert(h.last() == t[j - 1]);
            assert(h.drop_last() =~= t.subrange(0, j - 1));
        } else {
            assert(h =~= Seq::<FederationPeer>::empty());
        }
        assert(insert_by_priority(h, *x) =~= h.push(*x));
    }
}

fn push_nonempty(all: &mut Vec<String>, ms: &Vec<String>)
    ensures
        texts(final(all)@) == texts(old(all)@) + nonempty_addrs(ms@),
{
    let n = ms.len();
    let mut i: usize = 0;
    assert(ms@.subrange(0, 0) =~= Seq::<String>::empty());
    assert(texts(all@) =~= texts(old(all)@) + nonempty_addrs(ms@.subrange(0, 0)));
    while i < n
        invariant
            n == ms@.len(),
            i <= n,
            texts(all@) == texts(old(all)@) + nonempty_addrs(ms@.subrange(0, i as int)),
        decreases n - i,
    {
        let ghost before = texts(all@);
        assert(ms@.subrange(0, i + 1).drop_last() =~= ms@.subrange(0, i as int));
        if !ms[i].as_str().is_empty() {
            all.push(ms[i].clone());
            assert(texts(all@) =~= before.push(ms@[i as int]@));
        }
        i = i + 1;
    }
    assert(ms@.subrange(0, n as int) =~= ms@);
}

/// The bootstrap addresses (see `bootstrap_spec`).
pub fn bootstrap_addrs(cfg: &FederationConfig) -> (r: Vec<String>)
    ensures
        texts(r@) == bootstrap_spec(*cfg),
{
    if cfg.mode == FederationMode::LocalMesh {
        let v: Vec<String> = Vec::new();
        assert(texts(v@) =~= Seq::<Seq<char>>::empty());
        return v;
    }
    let mut sorted: Vec<&FederationPeer> = Vec::new();
    let n = cfg.peers.len();
    let mut i: usize = 0;
    while i < n
        invariant
            n == cfg.peers@.len(),
            i <= n,
            derefs(sorted@) == sort_by_priority(cfg.peers@.subrange(0, i as int)),
        decreases n - i,
    {
        assert(cfg.peers@.subrange(0, i + 1).drop_last() =~= cfg.peers@.subrange(0, i as int));
        insert_ref(&mut sorted, &cfg.peers[i]);
        i = i + 1;
    }
    assert(cfg.peers@.subrange(0, n as int) =~= cfg.peers@);
    let mut all: Vec<String> = Vec::new();
    let m = sorted.len();
    let mut k: usize = 0;
    assert(texts(all@) =~= peer_addrs(derefs(sorted@).subrange(0, 0)));
    while k < m
        invariant
            m == sorted@.len(),
            k <= m,
            texts(all@) == peer_addrs(derefs(sorted@).subrange(0, k as int)),
        decreases m - k,
    {
        assert(derefs(sorted@).subrange(0, k + 1).drop_last() =~= derefs(sorted@).subrange(0, k as int));
        push_nonempty(&mut all, &sorted[k].multiaddrs);
        k = k + 1;
    }
    assert(derefs(sorted@).subrange(0, m as int) =~= derefs(sorted@));
    let max = cfg.max_bootstrap as usize;
    if all.len() > max {
        all.truncate(max);
        assert(texts(all@) =~= peer_addrs(sort_by_priority(cfg.peers@)).subrange(0, max as int));
    }
    all
}

/// Whether mesh discovery runs (local-mesh and federated mode).
pub fn mesh_enabled(cfg: &FederationConfig) -> (r: bool)
    ensures
        r == mesh_enabled_spec(*cfg),
{
    cfg.mode == FederationMode::LocalMesh || cfg.mode == FederationMode::Federated
}

/// The peers sorted by priority come in ascending order of priority and are as many as before.
pub proof fn law_bootstrap_order(s: Seq<FederationPeer>)
    ensures
        sort_by_priority(s).len() == s.len(),
        forall|i: int, j: int|
            0 <= i <= j < s.len() ==> sort_by_priority(s)[i].priority <= sort_by_priority(s)[j].priority,
    decreases s.len(),
{
    if s.len() > 0 {
        law_bootstrap_order(s.drop_last());
        lemma_insert_sorted(sort_by_priority(s.drop_last()), s.last());
    }
}

proof fn lemma_insert_sorted(t: Seq<FederationPeer>, x: FederationPeer)
    requires
        forall|i: int, j: int| 0 <= i <= j < t.len() ==> t[i].priority <= t[j].priority,
    ensures
        insert_by_priority(t, x).len() == t.len() + 1,
        forall|i: int, j: int|
            0 <= i <= j < t.len() + 1 ==> insert_by_priority(t, x)[i].priority <= insert_by_priority(t, x)[j].priority,
        forall|i: int|
            0 <= i < t.len() + 1 ==> #[trigger] insert_by_priority(t, x)[i].priority == x.priority || exists|k: int|
                0 <= k < t.len() && t[k].priority == insert_by_priority(t, x)[i].priority,
    decreases t.len(),
{
    if t.len() > 0 && t.last().priority > x.priority {
        let t2 = t.drop_last();
        lemma_insert_sorted(t2, x);
        let u = insert_by_priority(t2, x);
        assert forall|i: int| 0 <= i < u.len() implies u[i].priority <= t.last().priority by {
            if u[i].priority != x.priority {
                let k = choose|k: int| 0 <= k < t2.len() && t2[k].priority == u[i].priority;
                assert(t[k] == t2[k]);
            }
        }
        assert forall|i: int| 0 <= i < t.len() + 1 implies #[trigger] insert_by_priority(t, x)[i].priority == x.priority
            || exists|k: int| 0 <= k < t.len() && t[k].priority == insert_by_priority(t, x)[i].priority by {
            if i < u.len() && u[i].priority != x.priority {
                let k = choose|k: int| 0 <= k < t2.len() && t2[k].priority == u[i].priority;
                assert(t[k] == t2[k]);
            }
            if i == u.len() {
                assert(t[t.len() - 1] == t.last());
            }
        }
    } else if t.len() > 0 {
        assert forall|i: int| 0 <= i < t.len() + 1 implies #[trigger] insert_by_priority(t, x)[i].priority == x.priority
            || exists|k: int| 0 <= k < t.len() && t[k].priority == insert_by_priority(t, x)[i].priority by {
            if i < t.len() {
                assert(insert_by_priority(t, x)[i] == t[i]);
            }
        }
    }
}


proof fn lemma_nonempty_addrs_pos(ms: Seq<String>, j: int)
    requires
        0 <= j < ms.len(),
        ms[j]@.len() > 0,
    ensures
        nonempty_addrs(ms).len() > 0,
    decreases ms.len(),
{
    if j < ms.len() - 1 {
        lemma_nonempty_addrs_pos(ms.drop_last(), j);
    }
}

proof fn lemma_peer_addrs_pos(ps: Seq<FederationPeer>, i: int)
    requires
        0 <= i < ps.len(),
        nonempty_addrs(ps[i].multiaddrs@).len() > 0,
    ensures
        peer_addrs(ps).len() > 0,
    decreases ps.len(),
{
    if i < ps.len() - 1 {
        lemma_peer_addrs_pos(ps.drop_last(), i);
    }
}

proof fn lemma_insert_keeps(t: Seq<FederationPeer>, x: FederationPeer)
    ensures
        exists|k: int| 0 <= k < insert_by_priority(t, x).len() && insert_by_priority(t, x)[k] == x,
        forall|i: int|
            0 <= i < t.len() ==> exists|k: int|
                0 <= k < insert_by_priority(t, x).len() && insert_by_priority(t, x)[k] == #[trigger] t[i],
    decreases t.len(),
{
    let u = insert_by_priority(t, x);
    if t.len() == 0 {
        assert(u[0] == x);
    } else if t.last().priority <= x.priority {
        assert(u[t.len() as int] == x);
        assert forall|i: int| 0 <= i < t.len() implies exists|k: int| 0 <= k < u.len() && u[k] == #[trigger] t[i] by {
            assert(u[i] == t[i]);
        }
    } else {
        let t2 = t.drop_last();
        lemma_insert_keeps(t2, x);
        let v = insert_by_priority(t2, x);
        let kx = choose|k: int| 0 <= k < v.len() && v[k] == x;
        assert(u[kx] == x);
        assert forall|i: int| 0 <= i < t.len() implies exists|k: int| 0 <= k < u.len() && u[k] == #[trigger] t[i] by {
            if i == t.len() - 1 {
                assert(u[v.len() as int] == t[i]);
            } else {
                assert(t[i] == t2[i]);
                let k = choose|k: int| 0 <= k < v.len() && v[k] == t2[i];
                assert(u[k] == t[i]);
            }
        }
    }
}

proof fn lemma_sort_keeps(s: Seq<FederationPeer>, i: int)
    requires
        0 <= i < s.len(),
    ensures
        exists|k: int| 0 <= k < sort_by_priority(s).len() && sort_by_priority(s)[k] == s[i],
    decreases s.len(),
{
    let t = sort_by_priority(s.drop_last());
    lemma_insert_keeps(t, s.last());
    let u = insert_by_priority(t, s.last());
    assert(sort_by_priority(s) == u);
    if i < s.len() - 1 {
        lemma_sort_keeps(s.drop_last(), i);
        let k = choose|k: int| 0 <= k < t.len() && t[k] == s.drop_last()[i];
        assert(s.drop_last()[i] == s[i]);
        let k2 = choose|k2: int| 0 <= k2 < u.len() && u[k2] == #[trigger] t[k];
        assert(u[k2] == s[i]);
    } else {
        let k2 = choose|k2: int| 0 <= k2 < u.len() && u[k2] == s.last();
        assert(u[k2] == s[i]);
    }
}

/// Only local-mesh mode bootstraps from nowhere. In every other mode the bootstrap addresses do
/// not depend on the mode (private mode bootstraps from its configured peers exactly as
/// federated mode does); they are at most `max_bootstrap`, and when some peer has a nonempty
/// address and `max_bootstrap` is not zero there is at least one.
pub proof fn law_bootstrap_modes(c: FederationConfig, mode: FederationMode, i: int, j: int)
    ensures
        c.mode == FederationMode::LocalMesh ==> bootstrap_spec(c).len() == 0,
        c.mode != FederationMode::LocalMesh && mode != FederationMode::LocalMesh ==> bootstrap_spec(c)
            == bootstrap_spec(FederationConfig { mode: mode, ..c }),
        bootstrap_spec(c).len() <= c.max_bootstrap,
        c.mode != FederationMode::LocalMesh && c.max_bootstrap > 0 && 0 <= i < c.peers@.len() && 0 <= j
            < c.peers@[i].multiaddrs@.len() && c.peers@[i].multiaddrs@[j]@.len() > 0 ==> bootstrap_spec(c).len() > 0,
{
    if c.mode != FederationMode::LocalMesh && c.max_bootstrap > 0 && 0 <= i < c.peers@.len() && 0 <= j
        < c.peers@[i].multiaddrs@.len() && c.peers@[i].multiaddrs@[j]@.len() > 0 {
        let ps = c.peers@;
        lemma_sort_keeps(ps, i);
        let sorted = sort_by_priority(ps);
        let k = choose|k: int| 0 <= k < sorted.len() && sorted[k] == ps[i];
        lemma_nonempty_addrs_pos(ps[i].multiaddrs@, j);
        lemma_peer_addrs_pos(sorted, k);
    }
}


/// The cap takes a prefix: with a smaller `max_bootstrap` the bootstrap addresses are the first
/// ones of those with a larger cap, and exactly `max_bootstrap` of them when the larger cap
/// gives at least that many.
pub proof fn law_bootstrap_cap(c: FederationConfig, m1: u32, m2: u32)
    requires
        m1 <= m2,
    ensures
        ({
            let small = bootstrap_spec(FederationConfig { max_bootstrap: m1, ..c });
            let large = bootstrap_spec(FederationConfig { max_bootstrap: m2, ..c });
            &&& small.len() <= large.len()
            &&& small == large.subrange(0, small.len() as int)
            &&& large.len() >= m1 ==> small.len() == m1
        }),
{
}

} // verus!
