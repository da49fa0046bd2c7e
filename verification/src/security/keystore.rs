//! Keystore interface and its software implementation.
use vstd::prelude::*;
use vstd::string::*;
use crate::assoc::{assoc_view, distinct_keys, find_by_name, lemma_assoc_at, lemma_assoc_push, lemma_assoc_remove, lemma_assoc_update};
use crate::bytes::bytes_to_vec;

verus! {

/// Why a keystore operation failed.
#[derive(Debug, Clone, PartialEq, Eq)]
pub enum KeystoreError {
    NotAvailable,
    NotFound,
    Failed(String),
}

/// A store of keys by alias.
pub trait SecureKeystore {
    /// Stores `key` under `alias`.
    fn store(&mut self, alias: &str, key: &[u8]) -> Result<(), KeystoreError>;

    /// The key stored under `alias`.
    fn load(&self, alias: &str) -> Result<Vec<u8>, KeystoreError>;

    /// Removes the key stored under `alias`, if any.
    fn delete(&mut self, alias: &str) -> Result<(), KeystoreError>;

    /// Whether keys are kept in hardware.
    fn is_hardware_backed(&self) -> bool;
}

/// A keystore in memory.
pub struct SoftwareKeystore {
    map: Vec<(String, Vec<u8>)>,
}

/// The view of an alias key.
pub open spec fn alias_key() -> spec_fn(String) -> Seq<char> {
    |k: String| k@
}

/// The view of a stored key.
pub open spec fn key_value() -> spec_fn(Vec<u8>) -> Seq<u8> {
    |v: Vec<u8>| v@
}

impl View for SoftwareKeystore {
    type V = Map<Seq<char>, Seq<u8>>;

    closed spec fn view(&self) -> Map<Seq<char>, Seq<u8>> {
        assoc_view(self.map@, alias_key(), key_value())
    }
}

impl SoftwareKeystore {
    #[verifier::type_invariant]
    spec fn aliases_distinct(self) -> bool {
        distinct_keys(self.map@, alias_key())
    }

    /// An empty keystore.
    pub fn new() -> (r: Self)
        ensures
            r@ == Map::<Seq<char>, Seq<u8>>::empty(),
    {
        let r = SoftwareKeystore { map: Vec::new() };
        assert(r@ =~= Map::<Seq<char>, Seq<u8>>::empty());
        r
    }
}

impl Default for SoftwareKeystore {
    fn default() -> (r: Self)
        ensures
            r@ == Map::<Seq<char>, Seq<u8>>::empty(),
    {
        Self::new()
    }
}

impl SecureKeystore for SoftwareKeystore {
    /// Stores `key` under `alias`, replacing what was there.
    fn store(&mut self, alias: &str, key: &[u8]) -> (r: Result<(), KeystoreError>)
        ensures
            r is Ok,
            final(self)@ == old(self)@.insert(alias@, key@),
    {
        proof { use_type_invariant(&*self); }
        let k = String::from_str(alias);
        let v = bytes_to_vec(key);
        let mut m: Vec<(String, Vec<u8>)> = Vec::new();
        std::mem::swap(&mut m, &mut self.map);
        match find_by_name(&m, &k) {
            Some(i) => {
                proof { lemma_assoc_update(m@, alias_key(), key_value(), i as int, (k, v)); }
                let _old = m.remove(i);
                m.insert(i, (k, v));
                assert(m@ =~= old(self).map@.update(i as int, (k, v)));
            },
            None => {
                proof {
                    if assoc_view(m@, alias_key(), key_value()).contains_key(alias@) {
                        let j = choose|j: int| 0 <= j < m@.len() && m@[j].0@ == alias@;
                    }
                    lemma_assoc_push(m@, alias_key(), key_value(), (k, v));
                }
                m.push((k, v));
            },
        }
        self.map = m;
        Ok(())
    }

    /// The key stored under `alias`; `NotFound` when there is none.
    fn load(&self, alias: &str) -> (r: Result<Vec<u8>, KeystoreError>)
        ensures
            self@.contains_key(alias@) ==> (r matches Ok(v) && v@ == self@[alias@]),
            !self@.contains_key(alias@) ==> r == Err::<Vec<u8>, KeystoreError>(KeystoreError::NotFound),
    {
        proof { use_type_invariant(self); }
        let k = String::from_str(alias);
        match find_by_name(&self.map, &k) {
            Some(i) => {
                proof { lemma_assoc_at(self.map@, alias_key(), key_value(), i as int); }
                Ok(bytes_to_vec(self.map[i].1.as_slice()))
            },
            None => {
                proof {
                    if self@.contains_key(alias@) {
                        let j = choose|j: int| 0 <= j < self.map@.len() && self.map@[j].0@ == alias@;
                    }
                }
                Err(KeystoreError::NotFound)
            },
        }
    }

    /// Removes the key stored under `alias`; succeeds whether or not there was one.
    fn delete(&mut self, alias: &str) -> (r: Result<(), KeystoreError>)
        ensures
            r is Ok,
            final(self)@ == old(self)@.remove(alias@),
    {
        proof { use_type_invariant(&*self); }
        let k = String::from_str(alias);
        let mut m: Vec<(String, Vec<u8>)> = Vec::new();
        std::mem::swap(&mut m, &mut self.map);
        match find_by_name(&m, &k) {
            Some(i) => {
                proof { lemma_assoc_remove(m@, alias_key(), key_value(), i as int); }
                let _old = m.remove(i);
            },
            None => {
                proof {
                    if assoc_view(m@, alias_key(), key_value()).contains_key(alias@) {
                        let j = choose|j: int| 0 <= j < m@.len() && m@[j].0@ == alias@;
                    }
                    assert(assoc_view(m@, alias_key(), key_value()) =~= assoc_view(m@, alias_key(), key_value()).remove(alias@));
                }
            },
        }
        self.map = m;
        Ok(())
    }

    /// The software keystore is not hardware backed.
    fn is_hardware_backed(&self) -> (r: bool)
        ensures
            !r,
    {
        false
    }
}

/// What a keystore gives back: the key last stored under an alias; nothing once deleted; and
/// storing or deleting one alias leaves the others as they were.
pub proof fn law_keystore_read_back(m: Map<Seq<char>, Seq<u8>>, a: Seq<char>, b: Seq<char>, k: Seq<u8>)
    ensures
        m.insert(a, k).contains_key(a) && m.insert(a, k)[a] == k,
        !m.remove(a).contains_key(a),
        a != b ==> (m.insert(a, k).contains_key(b) == m.contains_key(b) && (m.contains_key(b) ==> m.insert(a, k)[b] == m[b])),
        a != b ==> (m.remove(a).contains_key(b) == m.contains_key(b) && (m.contains_key(b) ==> m.remove(a)[b] == m[b])),
{
}

} // verus!
