//! A small association list keyed by strings (run ids, node ids), kept in
//! insertion order. The in-memory stores are built on it.
use vstd::prelude::*;
use crate::merge::Merge;

verus! {

/// The text of each of `v`.
pub open spec fn string_views(v: Seq<String>) -> Seq<Seq<char>> {
    v.map_values(|s: String| s@)
}

/// Values keyed by distinct strings, in the order the keys were first
/// inserted.
pub struct KeyedStore<V> {
    keys: Vec<String>,
    values: Vec<V>,
}

impl<V> KeyedStore<V> {
    /// The keys, in insertion order.
    pub closed spec fn spec_keys(&self) -> Seq<Seq<char>> {
        self.keys@.map_values(|k: String| k@)
    }

    /// The values, in the order of their keys.
    pub closed spec fn spec_values(&self) -> Seq<V> {
        self.values@
    }

    /// Keys and values pair up, and no key occurs twice.
    pub open spec fn wf(&self) -> bool {
        &&& self.spec_keys().len() == self.spec_values().len()
        &&& self.spec_keys().no_duplicates()
    }

    /// Whether `k` has a value.
    pub open spec fn spec_contains(&self, k: Seq<char>) -> bool {
        self.spec_keys().contains(k)
    }

    /// The value stored under `k`, if any.
    pub open spec fn spec_get(&self, k: Seq<char>) -> Option<V> {
        if self.spec_contains(k) {
            Some(self.spec_values()[self.spec_keys().index_of(k)])
        } else {
            None
        }
    }

    /// An empty store.
    pub fn new() -> (s: Self)
        ensures
            s.wf(),
            s.spec_keys() == Seq::<Seq<char>>::empty(),
            s.spec_values() == Seq::<V>::empty(),
    {
        let s = KeyedStore { keys: Vec::new(), values: Vec::new() };
        assert(s.spec_keys() =~= Seq::<Seq<char>>::empty());
        s
    }

    /// Number of keys.
    pub fn len(&self) -> (n: usize)
        requires
            self.wf(),
        ensures
            n == self.spec_keys().len(),
    {
        self.keys.len()
    }

    /// The position of `key`, if it has a value.
    pub fn position(&self, key: &str) -> (r: Option<usize>)
        requires
            self.wf(),
        ensures
            match r {
                Some(i) => i < self.spec_keys().len() && self.spec_keys()[i as int] == key@
                    && self.spec_keys().index_of(key@) == i,
                None => !self.spec_contains(key@),
            },
    {
        let owned = key.to_owned();
        let mut i: usize = 0;
        while i < self.keys.len()
            invariant
                self.wf(),
                owned@ == key@,
                i <= self.keys@.len(),
                self.keys@.len() == self.spec_keys().len(),
                forall|j: int| 0 <= j < i ==> self.spec_keys()[j] != key@,
            decreases self.keys@.len() - i,
        {
            if self.keys[i] == owned {
                proof {
                    assert(self.spec_keys()[i as int] == key@);
                    let k = self.spec_keys().index_of(key@);
                    assert(self.spec_keys().contains(key@));
                    assert(self.spec_keys()[k] == key@);
                }
                return Some(i);
            }
            i += 1;
        }
        None
    }

    /// The value at position `i`.
    pub fn value_at(&self, i: usize) -> (v: &V)
        requires
            self.wf(),
            i < self.spec_keys().len(),
        ensures
            *v == self.spec_values()[i as int],
    {
        &self.values[i]
    }

    /// The key at position `i`.
    pub fn key_at(&self, i: usize) -> (k: &String)
        requires
            self.wf(),
            i < self.spec_keys().len(),
        ensures
            k@ == self.spec_keys()[i as int],
    {
        &self.keys[i]
    }

    /// The value stored under `key`, if any.
    pub fn get(&self, key: &str) -> (r: Option<&V>)
        requires
            self.wf(),
        ensures
            match r {
                Some(v) => self.spec_get(key@) == Some(*v),
                None => self.spec_get(key@) is None,
            },
    {
        match self.position(key) {
            Some(i) => Some(&self.values[i]),
            None => None,
        }
    }

    /// Replace the value at position `i`.
    pub fn set_at(&mut self, i: usize, value: V)
        requires
            old(self).wf(),
            i < old(self).spec_keys().len(),
        ensures
            final(self).wf(),
            final(self).spec_keys() == old(self).spec_keys(),
            final(self).spec_values() == old(self).spec_values().update(i as int, value),
    {
        self.values[i] = value;
    }

    /// Put `value` at position `i`, returning the value that was there.
    pub fn replace_at(&mut self, i: usize, value: V) -> (prev: V)
        requires
            old(self).wf(),
            i < old(self).spec_keys().len(),
        ensures
            final(self).wf(),
            prev == old(self).spec_values()[i as int],
            final(self).spec_keys() == old(self).spec_keys(),
            final(self).spec_values() == old(self).spec_values().update(i as int, value),
    {
        let mut v = value;
        core::mem::swap(&mut self.values[i], &mut v);
        v
    }

    /// Store `value` under `key`: in place if the key has a value, else at
    /// the end.
    pub fn insert(&mut self, key: &str, value: V)
        requires
            old(self).wf(),
        ensures
            final(self).wf(),
            old(self).spec_contains(key@) ==> {
                &&& final(self).spec_keys() == old(self).spec_keys()
                &&& final(self).spec_values() == old(self).spec_values().update(
                    old(self).spec_keys().index_of(key@), value)
            },
            !old(self).spec_contains(key@) ==> {
                &&& final(self).spec_keys() == old(self).spec_keys().push(key@)
                &&& final(self).spec_values() == old(self).spec_values().push(value)
            },
    {
        match self.position(key) {
            Some(i) => {
                self.values[i] = value;
            },
            None => {
                let owned = key.to_owned();
                self.keys.push(owned);
                self.values.push(value);
                proof {
                    let ks = old(self).spec_keys();
                    assert(self.spec_keys() =~= ks.push(key@));
                    assert forall|a: int, b: int| 0 <= a < b < self.spec_keys().len()
                        implies self.spec_keys()[a] != self.spec_keys()[b] by {
                        if b == ks.len() {
                            assert(!ks.contains(key@));
                            assert(ks[a] == self.spec_keys()[a]);
                        }
                    }
                }
            },
        }
    }

    /// Remove the value stored under `key`, returning it.
    pub fn remove(&mut self, key: &str) -> (r: Option<V>)
        requires
            old(self).wf(),
        ensures
            final(self).wf(),
            r == old(self).spec_get(key@),
            old(self).spec_contains(key@) ==> {
                let i = old(self).spec_keys().index_of(key@);
                &&& final(self).spec_keys() == old(self).spec_keys().remove(i)
                &&& final(self).spec_values() == old(self).spec_values().remove(i)
            },
            !old(self).spec_contains(key@) ==> *final(self) == *old(self),
    {
        match self.position(key) {
            Some(i) => {
                let _k = self.keys.remove(i);
                let v = self.values.remove(i);
                proof {
                    let ks = old(self).spec_keys();
                    assert(self.spec_keys() =~= ks.remove(i as int));
                    assert forall|a: int, b: int| 0 <= a < b < self.spec_keys().len()
                        implies self.spec_keys()[a] != self.spec_keys()[b] by {
                        let a0 = if a < i { a } else { a + 1 };
                        let b0 = if b < i { b } else { b + 1 };
                        assert(self.spec_keys()[a] == ks[a0]);
                        assert(self.spec_keys()[b] == ks[b0]);
                    }
                }
                Some(v)
            },
            None => None,
        }
    }
}

impl<V: Merge> KeyedStore<V> {
    /// Merge `other` into the value at position `i`.
    pub fn merge_at(&mut self, i: usize, other: V)
        requires
            old(self).wf(),
            i < old(self).spec_keys().len(),
        ensures
            final(self).wf(),
            final(self).spec_keys() == old(self).spec_keys(),
            final(self).spec_values().len() == old(self).spec_values().len(),
            forall|j: int| 0 <= j < old(self).spec_values().len() && j != i
                ==> final(self).spec_values()[j] == old(self).spec_values()[j],
            old(self).spec_values()[i as int].spec_merges(other, final(self).spec_values()[i as int]),
    {
        self.values[i].merge(other);
    }
}

/// After storing `v` under `k`, `k` reads back `v` and every other key
/// reads back what it held before.
pub proof fn lemma_insert_get<V>(before: KeyedStore<V>, after: KeyedStore<V>, k: Seq<char>, v: V, other: Seq<char>)
    requires
        before.wf(),
        after.wf(),
        before.spec_contains(k) ==> {
            &&& after.spec_keys() == before.spec_keys()
            &&& after.spec_values() == before.spec_values().update(before.spec_keys().index_of(k), v)
        },
        !before.spec_contains(k) ==> {
            &&& after.spec_keys() == before.spec_keys().push(k)
            &&& after.spec_values() == before.spec_values().push(v)
        },
    ensures
        after.spec_get(k) == Some(v),
        other != k ==> after.spec_get(other) == before.spec_get(other),
{
    let ks = before.spec_keys();
    let ks2 = after.spec_keys();
    if before.spec_contains(k) {
        let i = ks.index_of(k);
        assert(ks[i] == k);
        assert(ks2.index_of(k) == i) by {
            let j = ks2.index_of(k);
            assert(ks2.contains(k));
            assert(ks2[j] == k);
        }
        if other != k && before.spec_contains(other) {
            let j = ks.index_of(other);
            assert(ks[j] == other);
            assert(ks2.index_of(other) == j) by {
                assert(ks2.contains(other));
            }
        }
    } else {
        assert(ks2[ks.len() as int] == k);
        assert(ks2.contains(k));
        assert(ks2.index_of(k) == ks.len()) by {
            let j = ks2.index_of(k);
            assert(ks2[j] == k);
            if j < ks.len() {
                assert(ks[j] == k);
                assert(ks.contains(k));
            }
        }
        if other != k {
            if before.spec_contains(other) {
                let j = ks.index_of(other);
                assert(ks[j] == other);
                assert(ks2[j] == other);
                assert(ks2.contains(other));
                assert(ks2.index_of(other) == j);
            } else {
                assert(!ks2.contains(other)) by {
                    if ks2.contains(other) {
                        let j = ks2.index_of(other);
                        assert(ks2[j] == other);
                        if j < ks.len() {
                            assert(ks[j] == other);
                        }
                    }
                }
            }
        }
    }
}

} // verus!
