//! Keyed collections held as vectors of (key, value) pairs with distinct keys, viewed as maps.
use vstd::prelude::*;

verus! {

/// No two entries have the same key (as seen through `kf`).
pub open spec fn distinct_keys<K, V, KV>(s: Seq<(K, V)>, kf: spec_fn(K) -> KV) -> bool {
    forall|i: int, j: int| 0 <= i < s.len() && 0 <= j < s.len() && i != j ==> kf(s[i].0) != kf(s[j].0)
}

/// The entries as a map from key views to value views.
pub open spec fn assoc_view<K, V, KV, VV>(s: Seq<(K, V)>, kf: spec_fn(K) -> KV, vf: spec_fn(V) -> VV) -> Map<KV, VV> {
    Map::new(
        |k: KV| exists|i: int| 0 <= i < s.len() && kf(s[i].0) == k,
        |k: KV| vf(s[choose|i: int| 0 <= i < s.len() && kf(s[i].0) == k].1),
    )
}

/// The entry at `i` is what the map holds for its key.
pub proof fn lemma_assoc_at<K, V, KV, VV>(s: Seq<(K, V)>, kf: spec_fn(K) -> KV, vf: spec_fn(V) -> VV, i: int)
    requires
        distinct_keys(s, kf),
        0 <= i < s.len(),
    ensures
        assoc_view(s, kf, vf).contains_key(kf(s[i].0)),
        assoc_view(s, kf, vf)[kf(s[i].0)] == vf(s[i].1),
{
    let k = kf(s[i].0);
    assert(exists|j: int| 0 <= j < s.len() && kf(s[j].0) == k);
    let j = choose|j: int| 0 <= j < s.len() && kf(s[j].0) == k;
    assert(j == i);
}

/// Pushing an entry with a new key inserts it.
pub proof fn lemma_assoc_push<K, V, KV, VV>(s: Seq<(K, V)>, kf: spec_fn(K) -> KV, vf: spec_fn(V) -> VV, e: (K, V))
    requires
        distinct_keys(s, kf),
        !assoc_view(s, kf, vf).contains_key(kf(e.0)),
    ensures
        distinct_keys(s.push(e), kf),
        assoc_view(s.push(e), kf, vf) == assoc_view(s, kf, vf).insert(kf(e.0), vf(e.1)),
{
    let t = s.push(e);
    assert(forall|k: int| 0 <= k < s.len() ==> kf(s[k].0) != kf(e.0));
    assert forall|i: int, j: int| 0 <= i < t.len() && 0 <= j < t.len() && i != j implies kf(t[i].0) != kf(t[j].0) by {
        if i < s.len() {
            assert(t[i] == s[i]);
        }
        if j < s.len() {
            assert(t[j] == s[j]);
        }
    }
    let m1 = assoc_view(t, kf, vf);
    let m2 = assoc_view(s, kf, vf).insert(kf(e.0), vf(e.1));
    assert forall|k: KV| m1.contains_key(k) <==> m2.contains_key(k) by {
        if m1.contains_key(k) {
            let i = choose|i: int| 0 <= i < t.len() && kf(t[i].0) == k;
            if i < s.len() {
                assert(t[i] == s[i]);
            }
        }
        if m2.contains_key(k) && k != kf(e.0) {
            let i = choose|i: int| 0 <= i < s.len() && kf(s[i].0) == k;
            assert(t[i] == s[i]);
        }
        if k == kf(e.0) {
            assert(kf(t[s.len() as int].0) == k);
        }
    }
    assert forall|k: KV| m1.contains_key(k) implies m1[k] == m2[k] by {
        let i = choose|i: int| 0 <= i < t.len() && kf(t[i].0) == k;
        lemma_assoc_at(t, kf, vf, i);
        if i < s.len() {
            assert(t[i] == s[i]);
            lemma_assoc_at(s, kf, vf, i);
        }
    }
    assert(m1 =~= m2);
}

/// Replacing the entry at `i` by one with the same key updates that key.
pub proof fn lemma_assoc_update<K, V, KV, VV>(s: Seq<(K, V)>, kf: spec_fn(K) -> KV, vf: spec_fn(V) -> VV, i: int, e: (K, V))
    requires
        distinct_keys(s, kf),
        0 <= i < s.len(),
        kf(e.0) == kf(s[i].0),
    ensures
        distinct_keys(s.update(i, e), kf),
        assoc_view(s.update(i, e), kf, vf) == assoc_view(s, kf, vf).insert(kf(e.0), vf(e.1)),
{
    let t = s.update(i, e);
    assert forall|a: int, b: int| 0 <= a < t.len() && 0 <= b < t.len() && a != b implies kf(t[a].0) != kf(t[b].0) by {
        assert(kf(t[a].0) == kf(s[a].0));
        assert(kf(t[b].0) == kf(s[b].0));
    }
    let m1 = assoc_view(t, kf, vf);
    let m2 = assoc_view(s, kf, vf).insert(kf(e.0), vf(e.1));
    lemma_assoc_at(s, kf, vf, i);
    assert forall|k: KV| m1.contains_key(k) <==> m2.contains_key(k) by {
        if m1.contains_key(k) {
            let a = choose|a: int| 0 <= a < t.len() && kf(t[a].0) == k;
            assert(kf(s[a].0) == k);
        }
        if m2.contains_key(k) {
            if k == kf(e.0) {
                assert(kf(t[i].0) == k);
            } else {
                let a = choose|a: int| 0 <= a < s.len() && kf(s[a].0) == k;
                assert(kf(t[a].0) == k);
            }
        }
    }
    assert forall|k: KV| m1.contains_key(k) implies m1[k] == m2[k] by {
        let a = choose|a: int| 0 <= a < t.len() && kf(t[a].0) == k;
        lemma_assoc_at(t, kf, vf, a);
        if a != i {
            lemma_assoc_at(s, kf, vf, a);
        }
    }
    assert(m1 =~= m2);
}

/// Removing the entry at `i` removes its key.
pub proof fn lemma_assoc_remove<K, V, KV, VV>(s: Seq<(K, V)>, kf: spec_fn(K) -> KV, vf: spec_fn(V) -> VV, i: int)
    requires
        distinct_keys(s, kf),
        0 <= i < s.len(),
    ensures
        distinct_keys(s.remove(i), kf),
        assoc_view(s.remove(i), kf, vf) == assoc_view(s, kf, vf).remove(kf(s[i].0)),
{
    let t = s.remove(i);
    let ki = kf(s[i].0);
    assert forall|a: int| 0 <= a < t.len() implies #[trigger] t[a] == (if a < i { s[a] } else { s[a + 1] }) by {}
    assert forall|a: int, b: int| 0 <= a < t.len() && 0 <= b < t.len() && a != b implies kf(t[a].0) != kf(t[b].0) by {
        let a2 = if a < i { a } else { a + 1 };
        let b2 = if b < i { b } else { b + 1 };
        assert(t[a] == s[a2]);
        assert(t[b] == s[b2]);
    }
    let m1 = assoc_view(t, kf, vf);
    let m2 = assoc_view(s, kf, vf).remove(ki);
    assert forall|k: KV| m1.contains_key(k) <==> m2.contains_key(k) by {
        if m1.contains_key(k) {
            let a = choose|a: int| 0 <= a < t.len() && kf(t[a].0) == k;
            let a2 = if a < i { a } else { a + 1 };
            assert(t[a] == s[a2]);
            assert(a2 != i);
        }
        if m2.contains_key(k) {
            let a = choose|a: int| 0 <= a < s.len() && kf(s[a].0) == k;
            assert(a != i);
            let a1 = if a < i { a } else { a - 1 };
            assert(t[a1] == s[a]);
        }
    }
    assert forall|k: KV| m1.contains_key(k) implies m1[k] == m2[k] by {
        let a = choose|a: int| 0 <= a < t.len() && kf(t[a].0) == k;
        let a2 = if a < i { a } else { a + 1 };
        assert(t[a] == s[a2]);
        lemma_assoc_at(t, kf, vf, a);
        lemma_assoc_at(s, kf, vf, a2);
    }
    assert(m1 =~= m2);
}

/// The position of the entry whose key is `key`, if any.
pub fn find_by_name<V>(v: &Vec<(String, V)>, key: &String) -> (r: Option<usize>)
    ensures
        r matches Some(i) ==> i < v@.len() && v@[i as int].0@ == key@,
        r is None ==> forall|i: int| 0 <= i < v@.len() ==> v@[i].0@ != key@,
{
    let len = v.len();
    let mut i: usize = 0;
    while i < len
        invariant
            len == v@.len(),
            i <= len,
            forall|j: int| 0 <= j < i ==> v@[j].0@ != key@,
        decreases len - i,
    {
        if v[i].0 == *key {
            return Some(i);
        }
        i = i + 1;
    }
    None
}

/// The position of the entry whose key is `key`, if any.
pub fn find_by_u32<V>(v: &Vec<(u32, V)>, key: u32) -> (r: Option<usize>)
    ensures
        r matches Some(i) ==> i < v@.len() && v@[i as int].0 == key,
        r is None ==> forall|i: int| 0 <= i < v@.len() ==> v@[i].0 != key,
{
    let len = v.len();
    let mut i: usize = 0;
    while i < len
        invariant
            len == v@.len(),
            i <= len,
            forall|j: int| 0 <= j < i ==> v@[j].0 != key,
        decreases len - i,
    {
        if v[i].0 == key {
            return Some(i);
        }
        i = i + 1;
    }
    None
}

} // verus!
