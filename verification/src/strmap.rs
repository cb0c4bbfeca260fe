//! A map from string keys to values that remembers the order in which keys
//! were first inserted.
use vstd::prelude::*;

use crate::text::{chars_eq, chars_of};

verus! {

/// The keys of an entry sequence.
pub open spec fn keys_of<T>(e: Seq<(Seq<char>, T)>) -> Seq<Seq<char>> {
    e.map_values(|p: (Seq<char>, T)| p.0)
}

/// No key occurs twice in the entry sequence.
pub open spec fn distinct_keys<T>(e: Seq<(Seq<char>, T)>) -> bool {
    forall|i: int, j: int|
        0 <= i < e.len() && 0 <= j < e.len() && i != j ==> (#[trigger] e[i]).0 != (#[trigger] e[j]).0
}

/// Some entry has key `k`.
pub open spec fn has_key<T>(e: Seq<(Seq<char>, T)>, k: Seq<char>) -> bool {
    exists|i: int| 0 <= i < e.len() && (#[trigger] e[i]).0 == k
}

/// The position of the entry with key `k` (meaningful when `has_key(e, k)`).
pub open spec fn key_index<T>(e: Seq<(Seq<char>, T)>, k: Seq<char>) -> int {
    choose|i: int| 0 <= i < e.len() && (#[trigger] e[i]).0 == k
}

/// The value stored under `k`, if any.
pub open spec fn lookup<T>(e: Seq<(Seq<char>, T)>, k: Seq<char>) -> Option<T> {
    if has_key(e, k) {
        Some(e[key_index(e, k)].1)
    } else {
        None
    }
}

/// The entries after storing `v` under `k`: an existing entry keeps its
/// position and takes the new value, a new key goes last.
pub open spec fn insert_entry<T>(e: Seq<(Seq<char>, T)>, k: Seq<char>, v: T) -> Seq<
    (Seq<char>, T),
> {
    if has_key(e, k) {
        e.update(key_index(e, k), (k, v))
    } else {
        e.push((k, v))
    }
}

/// In an entry sequence with distinct keys, the entry at `i` is the one found
/// for its key.
pub proof fn lemma_key_index_unique<T>(e: Seq<(Seq<char>, T)>, i: int)
    requires
        distinct_keys(e),
        0 <= i < e.len(),
    ensures
        has_key(e, e[i].0),
        key_index(e, e[i].0) == i,
        lookup(e, e[i].0) == Some(e[i].1),
{
    assert(has_key(e, e[i].0));
    let j = key_index(e, e[i].0);
    assert(e[j].0 == e[i].0);
}

/// Inserting keeps the keys distinct and makes the key map to the value,
/// leaving every other key as it was.
pub proof fn lemma_insert_entry<T>(e: Seq<(Seq<char>, T)>, k: Seq<char>, v: T)
    requires
        distinct_keys(e),
    ensures
        distinct_keys(insert_entry(e, k, v)),
        lookup(insert_entry(e, k, v), k) == Some(v),
        forall|k2: Seq<char>| k2 != k ==> lookup(insert_entry(e, k, v), k2) == lookup(e, k2),
{
    let r = insert_entry(e, k, v);
    if has_key(e, k) {
        let i = key_index(e, k);
        assert(r[i].0 == k);
        assert forall|a: int, b: int|
            0 <= a < r.len() && 0 <= b < r.len() && a != b implies (#[trigger] r[a]).0 != (
            #[trigger] r[b]).0 by {
            if a == i {
                assert(e[i].0 == k);
            } else if b == i {
                assert(e[i].0 == k);
            } else {
                assert(r[a] == e[a] && r[b] == e[b]);
            }
        }
        lemma_key_index_unique(r, i);
        assert forall|k2: Seq<char>| k2 != k implies lookup(r, k2) == lookup(e, k2) by {
            if has_key(e, k2) {
                let j = key_index(e, k2);
                assert(j != i);
                assert(r[j] == e[j]);
                lemma_key_index_unique(r, j);
            }
            if has_key(r, k2) {
                let j = key_index(r, k2);
                assert(j != i);
                assert(r[j] == e[j]);
            }
        }
    } else {
        let n = e.len() as int;
        assert(r[n].0 == k);
        assert forall|a: int, b: int|
            0 <= a < r.len() && 0 <= b < r.len() && a != b implies (#[trigger] r[a]).0 != (
            #[trigger] r[b]).0 by {
            if a == n {
                assert(r[b] == e[b]);
            } else if b == n {
                assert(r[a] == e[a]);
            } else {
                assert(r[a] == e[a] && r[b] == e[b]);
            }
        }
        lemma_key_index_unique(r, n);
        assert forall|k2: Seq<char>| k2 != k implies lookup(r, k2) == lookup(e, k2) by {
            if has_key(e, k2) {
                let j = key_index(e, k2);
                assert(r[j] == e[j]);
                lemma_key_index_unique(r, j);
            }
            if has_key(r, k2) {
                let j = key_index(r, k2);
                assert(j != n);
                assert(r[j] == e[j]);
            }
        }
    }
}

/// Values that can be copied, the copy having the same view.
pub trait Duplicate: View + Sized {
    /// A copy of `self`.
    fn duplicate(&self) -> (r: Self)
        ensures
            r@ == self@,
    ;
}

impl Duplicate for String {
    fn duplicate(&self) -> (r: Self) {
        self.clone()
    }
}

/// A map from string keys to values, kept in the order in which keys were
/// first inserted. Each key occurs at most once.
#[derive(Debug)]
pub struct StrMap<V> {
    entries: Vec<(String, V)>,
}

impl<V: View> View for StrMap<V> {
    type V = Seq<(Seq<char>, V::V)>;

    closed spec fn view(&self) -> Self::V {
        self.entries@.map_values(|p: (String, V)| (p.0@, p.1@))
    }
}

impl<V> StrMap<V> {
    /// Keys are never repeated.
    #[verifier::type_invariant]
    pub closed spec fn inv(&self) -> bool {
        forall|i: int, j: int|
            0 <= i < self.entries@.len() && 0 <= j < self.entries@.len() && i != j ==> (
            #[trigger] self.entries@[i]).0@ != (#[trigger] self.entries@[j]).0@
    }
}

impl<V: View> StrMap<V> {
    /// The type invariant, stated over the view.
    proof fn lemma_inv_view(&self)
        requires
            self.inv(),
        ensures
            distinct_keys(self@),
    {
        assert forall|i: int, j: int|
            0 <= i < self@.len() && 0 <= j < self@.len() && i != j implies (#[trigger] self@[i]).0
            != (#[trigger] self@[j]).0 by {
            assert(self@[i].0 == self.entries@[i].0@);
            assert(self@[j].0 == self.entries@[j].0@);
        }
    }

    /// An empty map.
    pub fn new() -> (r: Self)
        ensures
            r@ == Seq::<(Seq<char>, V::V)>::empty(),
            distinct_keys(r@),
    {
        let r = StrMap { entries: Vec::new() };
        assert(r@ =~= Seq::<(Seq<char>, V::V)>::empty());
        r
    }

    /// The number of keys.
    pub fn len(&self) -> (n: usize)
        ensures
            n == self@.len(),
            distinct_keys(self@),
    {
        proof {
            use_type_invariant(self);
            self.lemma_inv_view();
        }
        self.entries.len()
    }

    /// Whether there are no keys.
    pub fn is_empty(&self) -> (r: bool)
        ensures
            r == (self@.len() == 0),
    {
        self.entries.len() == 0
    }

    /// The position of the entry with key `key`, if any.
    fn find(&self, key: &[char]) -> (r: Option<usize>)
        ensures
            r is Some <==> has_key(self@, key@),
            r matches Some(i) ==> i < self@.len() && self@[i as int].0 == key@ && key_index(
                self@,
                key@,
            ) == i,
    {
        proof {
            use_type_invariant(self);
            self.lemma_inv_view();
        }
        let n = self.entries.len();
        for i in 0..n
            invariant
                n == self@.len(),
                n == self.entries@.len(),
                distinct_keys(self@),
                forall|j: int| 0 <= j < i ==> (#[trigger] self@[j]).0 != key@,
        {
            let k = chars_of(self.entries[i].0.as_str());
            assert(self@[i as int].0 == self.entries@[i as int].0@);
            if chars_eq(k.as_slice(), key) {
                proof {
                    lemma_key_index_unique(self@, i as int);
                }
                return Some(i);
            }
        }
        None
    }

    /// Whether some entry has key `key`.
    pub fn contains_key(&self, key: &str) -> (r: bool)
        ensures
            r == has_key(self@, key@),
    {
        let k = chars_of(key);
        self.find(k.as_slice()).is_some()
    }

    /// The value stored under `key`, if any.
    pub fn get(&self, key: &str) -> (r: Option<&V>)
        ensures
            r is Some <==> has_key(self@, key@),
            r matches Some(v) ==> lookup(self@, key@) == Some(v@),
    {
        let k = chars_of(key);
        match self.find(k.as_slice()) {
            Some(i) => {
                assert(self@[i as int].1 == self.entries@[i as int].1@);
                Some(&self.entries[i].1)
            },
            None => None,
        }
    }

    /// The key of the entry at position `i`.
    pub fn key_at(&self, i: usize) -> (k: &String)
        requires
            i < self@.len(),
        ensures
            k@ == self@[i as int].0,
    {
        &self.entries[i].0
    }

    /// The value of the entry at position `i`.
    pub fn value_at(&self, i: usize) -> (v: &V)
        requires
            i < self@.len(),
        ensures
            v@ == self@[i as int].1,
    {
        &self.entries[i].1
    }

    /// Stores `value` under `key`; an existing entry for `key` keeps its
    /// position and takes the new value.
    pub fn insert(&mut self, key: String, value: V)
        ensures
            final(self)@ == insert_entry(old(self)@, key@, value@),
            distinct_keys(final(self)@),
    {
        proof {
            use_type_invariant(&*self);
            self.lemma_inv_view();
        }
        let k = chars_of(key.as_str());
        let ghost old_view = self@;
        let ghost kv = key@;
        let ghost vv = value@;
        proof {
            lemma_insert_entry(old_view, kv, vv);
        }
        let found = self.find(k.as_slice());
        let mut entries: Vec<(String, V)> = Vec::new();
        std::mem::swap(&mut entries, &mut self.entries);
        match found {
            Some(i) => {
                entries.set(i, (key, value));
                assert(entries@.map_values(|p: (String, V)| (p.0@, p.1@)) =~= old_view.update(
                    i as int,
                    (kv, vv),
                ));
            },
            None => {
                entries.push((key, value));
                assert(entries@.map_values(|p: (String, V)| (p.0@, p.1@)) =~= old_view.push(
                    (kv, vv),
                ));
            },
        }
        let ghost nv = entries@.map_values(|p: (String, V)| (p.0@, p.1@));
        assert forall|a: int, b: int|
            0 <= a < entries@.len() && 0 <= b < entries@.len() && a != b implies (
            #[trigger] entries@[a]).0@ != (#[trigger] entries@[b]).0@ by {
            assert(nv[a].0 == entries@[a].0@);
            assert(nv[b].0 == entries@[b].0@);
        }
        self.entries = entries;
    }
}

impl<V: Duplicate> Clone for StrMap<V> {
    /// A copy with the same entries in the same order.
    fn clone(&self) -> (r: Self)
        ensures
            r@ == self@,
    {
        self.duplicate()
    }
}

impl<V: Duplicate> Duplicate for StrMap<V> {
    fn duplicate(&self) -> (r: Self) {
        proof {
            use_type_invariant(self);
        }
        let mut entries: Vec<(String, V)> = Vec::new();
        let n = self.entries.len();
        for i in 0..n
            invariant
                n == self.entries@.len(),
                entries@.len() == i,
                forall|j: int|
                    0 <= j < i ==> (#[trigger] entries@[j]).0@ == self.entries@[j].0@
                        && entries@[j].1@ == self.entries@[j].1@,
        {
            let k = self.entries[i].0.duplicate();
            let v = self.entries[i].1.duplicate();
            entries.push((k, v));
        }
        let r = StrMap { entries };
        assert(r@ =~= self@);
        r
    }
}

} // verus!
