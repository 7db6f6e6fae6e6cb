//! Maps that keep the order in which their keys were first inserted.

use vstd::prelude::*;

use crate::value;
use crate::value::Value;

verus! {

/// A map from keys to values, in the order of first insertion.
#[derive(Clone, Debug, PartialEq, Eq)]
pub struct KeyMap<K, V> {
    pub entries: Vec<(K, V)>,
}

impl<K: DeepView, V: DeepView> View for KeyMap<K, V> {
    type V = Seq<(<K as DeepView>::V, <V as DeepView>::V)>;

    open spec fn view(&self) -> Self::V {
        self.entries.deep_view()
    }
}

impl<K: DeepView, V: DeepView> DeepView for KeyMap<K, V> {
    type V = Seq<(<K as DeepView>::V, <V as DeepView>::V)>;

    open spec fn deep_view(&self) -> Self::V {
        self.entries.deep_view()
    }
}

impl<K: Value, V: Value> Value for KeyMap<K, V> {
    fn dup(&self) -> (res: Self) {
        KeyMap { entries: self.entries.dup() }
    }

    fn same(&self, other: &Self) -> (res: bool) {
        self.entries.same(&other.entries)
    }
}

/// The position of the entry of `k` at or after `i`, or the length.
pub open spec fn entry_from<K, V>(s: Seq<(K, V)>, k: K, i: int) -> int
    decreases s.len() - i,
{
    if i < 0 || i >= s.len() {
        s.len() as int
    } else if s[i].0 == k {
        i
    } else {
        entry_from(s, k, i + 1)
    }
}

/// The position of the entry of `k`, or the length.
pub open spec fn entry<K, V>(s: Seq<(K, V)>, k: K) -> int {
    entry_from(s, k, 0)
}

/// Whether the map has an entry of `k`.
pub open spec fn has<K, V>(s: Seq<(K, V)>, k: K) -> bool {
    entry(s, k) < s.len()
}

/// What the map holds for `k`.
pub open spec fn lookup<K, V>(s: Seq<(K, V)>, k: K) -> Option<V> {
    if has(s, k) {
        Some(s[entry(s, k)].1)
    } else {
        None
    }
}

/// The map with `v` for `k`.
pub open spec fn inserted<K, V>(s: Seq<(K, V)>, k: K, v: V) -> Seq<(K, V)> {
    if has(s, k) {
        s.update(entry(s, k), (k, v))
    } else {
        s.push((k, v))
    }
}

/// The map without an entry of `k`.
pub open spec fn removed<K, V>(s: Seq<(K, V)>, k: K) -> Seq<(K, V)> {
    if has(s, k) {
        s.remove(entry(s, k))
    } else {
        s
    }
}

/// Whether every key has one entry only.
pub open spec fn unique<K, V>(s: Seq<(K, V)>) -> bool {
    forall|i: int, j: int| 0 <= i < j < s.len() ==> (#[trigger] s[i]).0 != (#[trigger] s[j]).0
}

/// The entry of `k` is the first one with that key.
pub proof fn lemma_entry_from<K, V>(s: Seq<(K, V)>, k: K, i: int)
    requires
        0 <= i <= s.len(),
    ensures
        i <= entry_from(s, k, i) <= s.len(),
        entry_from(s, k, i) < s.len() ==> s[entry_from(s, k, i)].0 == k,
        forall|j: int| i <= j < entry_from(s, k, i) ==> (#[trigger] s[j]).0 != k,
    decreases s.len() - i,
{
    if i < s.len() && s[i].0 != k {
        lemma_entry_from(s, k, i + 1);
    }
}

/// An entry at a position that no earlier one shares its key with is found
/// there.
pub proof fn lemma_entry_is<K, V>(s: Seq<(K, V)>, k: K, p: int, i: int)
    requires
        0 <= i <= p < s.len(),
        s[p].0 == k,
        forall|j: int| i <= j < p ==> (#[trigger] s[j]).0 != k,
    ensures
        entry_from(s, k, i) == p,
    decreases p - i,
{
    if i < p {
        assert(s[i].0 != k);
        lemma_entry_is(s, k, p, i + 1);
    }
}

/// Inserting makes a map hold the new value for its key and keeps what it
/// holds for every other key. A key never gets a second entry.
pub proof fn law_inserted<K, V>(s: Seq<(K, V)>, k: K, v: V, other: K)
    ensures
        lookup(inserted(s, k, v), k) == Some(v),
        other != k ==> lookup(inserted(s, k, v), other) == lookup(s, other),
        unique(s) ==> unique(inserted(s, k, v)),
{
    let t = inserted(s, k, v);
    lemma_entry_from(s, k, 0);
    lemma_entry_from(s, other, 0);
    let p = entry(s, k);
    lemma_entry_is(t, k, p, 0);
    if other != k {
        let q = entry(s, other);
        lemma_entry_from(t, other, 0);
        if q < s.len() {
            assert(t[q] == s[q]);
            assert forall|j: int| 0 <= j < q implies (#[trigger] t[j]).0 != other by {
                if j != p {
                    assert(t[j] == s[j]);
                }
            }
            lemma_entry_is(t, other, q, 0);
        } else {
            let r = entry(t, other);
            if r < t.len() && r != p {
                assert(t[r] == s[r]);
            }
        }
    }
    if unique(s) {
        assert forall|i: int, j: int| 0 <= i < j < t.len() implies (#[trigger] t[i]).0
            != (#[trigger] t[j]).0 by {
            if i < s.len() && j < s.len() {
                assert(s[i].0 != s[j].0);
            } else {
                assert(t[i] == s[i]);
            }
        }
    }
}

/// Removing makes a map hold nothing for the key, when it had one entry only,
/// and keeps what it holds for every other key.
pub proof fn law_removed<K, V>(s: Seq<(K, V)>, k: K, other: K)
    requires
        unique(s),
    ensures
        lookup(removed(s, k), k) is None,
        other != k ==> lookup(removed(s, k), other) == lookup(s, other),
        unique(removed(s, k)),
{
    let t = removed(s, k);
    lemma_entry_from(s, k, 0);
    lemma_entry_from(s, other, 0);
    lemma_entry_from(t, k, 0);
    lemma_entry_from(t, other, 0);
    let p = entry(s, k);
    if p < s.len() {
        assert forall|j: int| 0 <= j < t.len() implies (#[trigger] t[j]).0 != k by {
            if j < p {
                assert(t[j] == s[j]);
            } else {
                assert(t[j] == s[j + 1]);
                assert(s[p].0 != s[j + 1].0);
            }
        }
        if other != k {
            let q = entry(s, other);
            if q < s.len() {
                let r = if q < p {
                    q
                } else {
                    q - 1
                };
                assert(t[r] == s[q]);
                assert forall|j: int| 0 <= j < r implies (#[trigger] t[j]).0 != other by {
                    if j < p {
                        assert(t[j] == s[j]);
                    } else {
                        assert(t[j] == s[j + 1]);
                    }
                }
                lemma_entry_is(t, other, r, 0);
            } else {
                let r = entry(t, other);
                if r < t.len() {
                    if r < p {
                        assert(t[r] == s[r]);
                    } else {
                        assert(t[r] == s[r + 1]);
                    }
                }
            }
        }
        assert forall|i: int, j: int| 0 <= i < j < t.len() implies (#[trigger] t[i]).0
            != (#[trigger] t[j]).0 by {
            let a = if i < p {
                i
            } else {
                i + 1
            };
            let b = if j < p {
                j
            } else {
                j + 1
            };
            assert(t[i] == s[a] && t[j] == s[b]);
        }
    }
}

impl<K: Value, V: Value> KeyMap<K, V> {
    /// The empty map.
    pub fn new() -> (res: Self)
        ensures
            res@ == Seq::<(<K as DeepView>::V, <V as DeepView>::V)>::empty(),
    {
        let res = KeyMap { entries: Vec::new() };
        assert(res@ =~= Seq::<(<K as DeepView>::V, <V as DeepView>::V)>::empty());
        res
    }

    /// How many entries the map has.
    pub fn len(&self) -> (res: usize)
        ensures
            res == self@.len(),
    {
        self.entries.len()
    }

    /// Whether the map has no entry.
    pub fn is_empty(&self) -> (res: bool)
        ensures
            res == (self@.len() == 0),
    {
        self.entries.len() == 0
    }

    /// The position of the entry of `k`, or the length.
    pub fn find(&self, k: &K) -> (res: usize)
        ensures
            res == entry(self@, k.deep_view()),
            res <= self.entries.len(),
            res < self.entries.len() ==> self.entries[res as int].0.deep_view() == k.deep_view(),
    {
        let mut i: usize = 0;
        while i < self.entries.len()
            invariant
                i <= self.entries.len(),
                entry(self@, k.deep_view()) == entry_from(self@, k.deep_view(), i as int),
            decreases self.entries.len() - i,
        {
            assert(self@[i as int] == self.entries[i as int].deep_view());
            if self.entries[i].0.same(k) {
                return i;
            }
            i = i + 1;
        }
        i
    }

    /// Whether the map has an entry of `k`.
    pub fn contains_key(&self, k: &K) -> (res: bool)
        ensures
            res == has(self@, k.deep_view()),
    {
        self.find(k) < self.entries.len()
    }

    /// What the map holds for `k`.
    pub fn get(&self, k: &K) -> (res: Option<&V>)
        ensures
            match res {
                Some(v) => lookup(self@, k.deep_view()) == Some(v.deep_view()),
                None => lookup(self@, k.deep_view()) is None,
            },
    {
        let i: usize = self.find(k);
        if i < self.entries.len() {
            assert(self@[i as int] == self.entries[i as int].deep_view());
            Some(&self.entries[i].1)
        } else {
            None
        }
    }

    /// Puts `v` for `k`.
    pub fn insert(&mut self, k: K, v: V)
        ensures
            final(self)@ == inserted(old(self)@, k.deep_view(), v.deep_view()),
    {
        let i: usize = self.find(&k);
        let ghost before = self.entries;
        let ghost pair = (k, v);
        if i < self.entries.len() {
            self.entries.set(i, (k, v));
            proof {
                value::lemma_deep_update(before, self.entries, i as int, pair);
            }
        } else {
            self.entries.push((k, v));
            proof {
                value::lemma_deep_push(before, self.entries, pair);
            }
        }
    }

    /// Drops the entry of `k` and returns its value.
    pub fn remove(&mut self, k: &K) -> (res: Option<V>)
        ensures
            final(self)@ == removed(old(self)@, k.deep_view()),
            res.deep_view() == lookup(old(self)@, k.deep_view()),
    {
        let i: usize = self.find(k);
        if i < self.entries.len() {
            let ghost before = self.entries;
            assert(self@[i as int] == self.entries[i as int].deep_view());
            let (_, v) = self.entries.remove(i);
            proof {
                value::lemma_deep_remove(before, self.entries, i as int);
            }
            Some(v)
        } else {
            None
        }
    }

    /// The value of the entry at a position.
    pub fn value_at(&self, i: usize) -> (res: &V)
        requires
            i < self@.len(),
        ensures
            res.deep_view() == self@[i as int].1,
    {
        assert(self@[i as int] == self.entries[i as int].deep_view());
        &self.entries[i].1
    }

    /// The key of the entry at a position.
    pub fn key_at(&self, i: usize) -> (res: &K)
        requires
            i < self@.len(),
        ensures
            res.deep_view() == self@[i as int].0,
    {
        assert(self@[i as int] == self.entries[i as int].deep_view());
        &self.entries[i].0
    }

    /// Replaces the value of the entry at a position.
    pub fn set_value(&mut self, i: usize, v: V)
        requires
            i < old(self)@.len(),
        ensures
            final(self)@ == old(self)@.update(i as int, (old(self)@[i as int].0, v.deep_view())),
    {
        let ghost before = self.entries;
        assert(self@[i as int] == self.entries[i as int].deep_view());
        let k = self.entries[i].0.dup();
        let ghost pair = (k, v);
        self.entries.set(i, (k, v));
        proof {
            value::lemma_deep_update(before, self.entries, i as int, pair);
        }
    }
}

/// Maps with the same keys have the entries of a key at the same position.
pub proof fn lemma_same_entries<K, V, W>(s: Seq<(K, V)>, t: Seq<(K, W)>, k: K, i: int)
    requires
        s.len() == t.len(),
        forall|j: int| 0 <= j < s.len() ==> (#[trigger] s[j]).0 == (#[trigger] t[j]).0,
        0 <= i,
    ensures
        entry_from(s, k, i) == entry_from(t, k, i),
    decreases s.len() - i,
{
    if i < s.len() {
        assert(s[i].0 == t[i].0);
        lemma_same_entries(s, t, k, i + 1);
    }
}

} // verus!
