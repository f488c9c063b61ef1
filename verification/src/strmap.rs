//! A small map keyed by strings that keeps its entries in insertion order.

use vstd::prelude::*;

verus! {

broadcast use vstd::string::group_string_axioms;

/// Position of the first entry with key `k`, or `-1` when there is none.
pub open spec fn find_index<V>(e: Seq<(Seq<char>, V)>, k: Seq<char>) -> int
    decreases e.len(),
{
    if e.len() == 0 {
        -1
    } else if e[0].0 == k {
        0
    } else {
        let r = find_index(e.drop_first(), k);
        if r < 0 { -1 } else { r + 1 }
    }
}

/// The value of the first entry with key `k`.
pub open spec fn lookup<V>(e: Seq<(Seq<char>, V)>, k: Seq<char>) -> Option<V> {
    let i = find_index(e, k);
    if i < 0 { None } else { Some(e[i].1) }
}

/// The value stored for `k`, or zero.
pub open spec fn lookup_or_zero(e: Seq<(Seq<char>, u64)>, k: Seq<char>) -> u64 {
    match lookup(e, k) {
        Some(v) => v,
        None => 0,
    }
}

/// The key occurs among the entries.
pub open spec fn has_key<V>(e: Seq<(Seq<char>, V)>, k: Seq<char>) -> bool {
    exists|i: int| 0 <= i < e.len() && #[trigger] e[i].0 == k
}

/// Entries after setting `k` to `v`: the first entry with that key is
/// overwritten in place, otherwise the pair is appended.
pub open spec fn insert_entry<V>(e: Seq<(Seq<char>, V)>, k: Seq<char>, v: V) -> Seq<(Seq<char>, V)> {
    let i = find_index(e, k);
    if i < 0 { e.push((k, v)) } else { e.update(i, (k, v)) }
}

/// No key occurs twice.
pub open spec fn keys_distinct<V>(e: Seq<(Seq<char>, V)>) -> bool {
    forall|i: int, j: int| 0 <= i < j < e.len() ==> #[trigger] e[i].0 != #[trigger] e[j].0
}

/// `find_index` is the first position holding the key, or `-1` when none does.
pub proof fn lemma_find_index<V>(e: Seq<(Seq<char>, V)>, k: Seq<char>)
    ensures
        -1 <= find_index(e, k) < e.len(),
        find_index(e, k) >= 0 ==> e[find_index(e, k)].0 == k,
        forall|j: int| 0 <= j < e.len() && (find_index(e, k) < 0 || j < find_index(e, k))
            ==> #[trigger] e[j].0 != k,
        find_index(e, k) < 0 <==> !has_key(e, k),
    decreases e.len(),
{
    if e.len() > 0 && e[0].0 != k {
        lemma_find_index(e.drop_first(), k);
        assert forall|j: int| 0 <= j < e.len() && (find_index(e, k) < 0 || j < find_index(e, k))
            implies #[trigger] e[j].0 != k by {
            if j > 0 {
                assert(e[j] == e.drop_first()[j - 1]);
            }
        }
        if find_index(e, k) >= 0 {
            assert(e[find_index(e, k)] == e.drop_first()[find_index(e, k) - 1]);
        } else {
            assert forall|i: int| 0 <= i < e.len() implies #[trigger] e[i].0 != k by {}
        }
    }
}

/// With distinct keys, the value of a key is the value of its one entry.
pub proof fn lemma_lookup_distinct<V>(e: Seq<(Seq<char>, V)>, i: int)
    requires
        keys_distinct(e),
        0 <= i < e.len(),
    ensures
        lookup(e, e[i].0) == Some(e[i].1),
{
    lemma_find_index(e, e[i].0);
    let f = find_index(e, e[i].0);
    if f >= 0 && f != i {
        assert(e[f].0 == e[i].0);
    }
}

/// A key that no entry has has no value.
pub proof fn lemma_lookup_absent<V>(e: Seq<(Seq<char>, V)>, k: Seq<char>)
    requires
        !has_key(e, k),
    ensures
        lookup(e, k) is None,
{
    lemma_find_index(e, k);
}

/// Setting a key and reading it back gives the value set; every other key
/// keeps its value.
pub proof fn lemma_insert_then_lookup<V>(e: Seq<(Seq<char>, V)>, k: Seq<char>, v: V, other: Seq<char>)
    ensures
        lookup(insert_entry(e, k, v), k) == Some(v),
        other != k ==> lookup(insert_entry(e, k, v), other) == lookup(e, other),
{
    let e2 = insert_entry(e, k, v);
    lemma_find_index(e, k);
    lemma_find_index(e2, k);
    lemma_find_index(e, other);
    lemma_find_index(e2, other);
    let i = find_index(e, k);
    if i < 0 {
        assert(e2[e.len() as int].0 == k);
    } else {
        assert(e2[i].0 == k);
    }
    if other != k {
        let a = find_index(e, other);
        let b = find_index(e2, other);
        if a >= 0 {
            assert(e2[a].0 == other);
        }
        if b >= 0 && b < e.len() {
            assert(e[b].0 == other);
        }
    }
}

/// Setting a key keeps the keys distinct.
pub proof fn lemma_insert_keeps_keys_distinct<V>(e: Seq<(Seq<char>, V)>, k: Seq<char>, v: V)
    requires
        keys_distinct(e),
    ensures
        keys_distinct(insert_entry(e, k, v)),
{
    lemma_find_index(e, k);
    let e2 = insert_entry(e, k, v);
    assert forall|i: int, j: int| 0 <= i < j < e2.len() implies #[trigger] e2[i].0 != #[trigger] e2[j].0 by {
        if find_index(e, k) < 0 && j == e.len() {
            assert(e[i].0 != k);
        }
    }
}

/// Entries with string keys, kept in the order they were first inserted;
/// no key occurs twice.
#[derive(Debug)]
pub struct StrMap<V> {
    entries: Vec<(String, V)>,
}

impl<V> StrMap<V> {
    /// The entries as (key, value) pairs, in order.
    pub closed spec fn entries(&self) -> Seq<(Seq<char>, V)> {
        self.entries@.map_values(|e: (String, V)| (e.0@, e.1))
    }

    /// Every map holds each key at most once.
    #[verifier::type_invariant]
    pub open spec fn well_formed(&self) -> bool {
        keys_distinct(self.entries())
    }

    /// An empty map.
    pub fn new() -> (m: Self)
        ensures
            m.entries() == Seq::<(Seq<char>, V)>::empty(),
    {
        let m = StrMap { entries: Vec::new() };
        assert(m.entries() =~= Seq::<(Seq<char>, V)>::empty());
        m
    }

    /// Number of entries.
    pub fn len(&self) -> (n: usize)
        ensures
            n == self.entries().len(),
    {
        self.entries.len()
    }

    /// The map has no entries.
    pub fn is_empty(&self) -> (b: bool)
        ensures
            b == (self.entries().len() == 0),
    {
        self.entries.len() == 0
    }

    /// Key of the `i`-th entry.
    pub fn key_at(&self, i: usize) -> (k: &String)
        requires
            i < self.entries().len(),
        ensures
            k@ == self.entries()[i as int].0,
    {
        &self.entries[i].0
    }

    /// Value of the `i`-th entry.
    pub fn value_at(&self, i: usize) -> (v: &V)
        requires
            i < self.entries().len(),
        ensures
            *v == self.entries()[i as int].1,
    {
        &self.entries[i].1
    }

    /// Position of the entry for `key`.
    fn position(&self, key: &str) -> (r: Option<usize>)
        ensures
            match r {
                Some(i) => i < self.entries().len() && i as int == find_index(self.entries(), key@),
                None => find_index(self.entries(), key@) < 0,
            },
    {
        let k = key.to_string();
        let mut i: usize = 0;
        while i < self.entries.len()
            invariant
                i <= self.entries@.len(),
                k@ == key@,
                forall|j: int| 0 <= j < i ==> #[trigger] self.entries()[j].0 != key@,
            decreases self.entries@.len() - i,
        {
            if self.entries[i].0 == k {
                proof {
                    lemma_find_index(self.entries(), key@);
                    assert(self.entries()[i as int].0 == key@);
                }
                return Some(i);
            }
            assert(self.entries()[i as int].0 == self.entries@[i as int].0@);
            i = i + 1;
        }
        proof {
            lemma_find_index(self.entries(), key@);
            if find_index(self.entries(), key@) >= 0 {
                let f = find_index(self.entries(), key@);
                assert(self.entries()[f].0 != key@);
            }
        }
        None
    }

    /// The value stored for `key`.
    pub fn get(&self, key: &str) -> (r: Option<&V>)
        ensures
            match r {
                Some(v) => lookup(self.entries(), key@) == Some(*v),
                None => lookup(self.entries(), key@) is None,
            },
    {
        match self.position(key) {
            Some(i) => Some(&self.entries[i].1),
            None => None,
        }
    }

    /// Appends an entry for a key that is not present yet.
    pub(crate) fn push_new(&mut self, key: String, value: V)
        requires
            !has_key(old(self).entries(), key@),
        ensures
            final(self).entries() == old(self).entries().push((key@, value)),
    {
        proof {
            use_type_invariant(&*self);
        }
        let ghost e0 = self.entries();
        let ghost k = key@;
        let mut v = self.take_entries();
        v.push((key, value));
        let ghost r = v@.map_values(|e: (String, V)| (e.0@, e.1));
        assert(r =~= e0.push((k, value)));
        assert forall|i: int, j: int| 0 <= i < j < r.len() implies #[trigger] r[i].0 != #[trigger] r[j].0 by {
            if j == e0.len() {
                assert(r[i] == e0[i]);
            } else {
                assert(r[i] == e0[i] && r[j] == e0[j]);
            }
        }
        self.entries = v;
        assert(self.entries() =~= e0.push((k, value)));
    }

    /// Moves the entries out, leaving the map empty.
    fn take_entries(&mut self) -> (v: Vec<(String, V)>)
        ensures
            v@ == old(self).entries@,
            final(self).entries@.len() == 0,
    {
        let mut v: Vec<(String, V)> = Vec::new();
        std::mem::swap(&mut v, &mut self.entries);
        v
    }

    /// Sets `key` to `value`, returning the value it replaces.
    pub fn insert(&mut self, key: String, value: V) -> (prev: Option<V>)
        ensures
            final(self).entries() == insert_entry(old(self).entries(), key@, value),
            prev == lookup(old(self).entries(), key@),
    {
        proof {
            use_type_invariant(&*self);
            lemma_insert_keeps_keys_distinct(self.entries(), key@, value);
        }
        let ghost e0 = self.entries();
        let ghost k = key@;
        let ghost val = value;
        let pos = self.position(key.as_str());
        let mut v = self.take_entries();
        let prev = match pos {
            Some(i) => {
                let old_pair = v.remove(i);
                v.insert(i, (key, value));
                Some(old_pair.1)
            },
            None => {
                v.push((key, value));
                None
            },
        };
        assert(v@.map_values(|e: (String, V)| (e.0@, e.1)) =~= insert_entry(e0, k, val));
        self.entries = v;
        prev
    }
}

impl<V: Clone> Clone for StrMap<V> {
    /// A copy with the same keys in the same order, each value cloned.
    fn clone(&self) -> (r: Self)
        ensures
            r.entries().len() == self.entries().len(),
            forall|i: int| 0 <= i < self.entries().len() ==> (#[trigger] r.entries()[i]).0 == self.entries()[i].0
                && cloned::<V>(self.entries()[i].1, r.entries()[i].1),
    {
        proof {
            use_type_invariant(self);
        }
        let ghost e = self.entries();
        let mut out: Vec<(String, V)> = Vec::new();
        let mut i: usize = 0;
        while i < self.entries.len()
            invariant
                e == self.entries(),
                i <= e.len(),
                out@.len() == i,
                forall|j: int| 0 <= j < i ==> (#[trigger] out@[j]).0@ == e[j].0 && cloned::<V>(e[j].1, out@[j].1),
            decreases e.len() - i,
        {
            let k = self.entries[i].0.clone();
            let v = self.entries[i].1.clone();
            assert(self.entries@[i as int].0@ == e[i as int].0);
            out.push((k, v));
            i = i + 1;
        }
        let ghost r = out@.map_values(|x: (String, V)| (x.0@, x.1));
        assert forall|a: int, b: int| 0 <= a < b < r.len() implies #[trigger] r[a].0 != #[trigger] r[b].0 by {
            assert(r[a].0 == e[a].0 && r[b].0 == e[b].0);
        }
        StrMap { entries: out }
    }
}

impl<V> Default for StrMap<V> {
    fn default() -> (m: Self)
        ensures
            m.entries() == Seq::<(Seq<char>, V)>::empty(),
    {
        StrMap::new()
    }
}

} // verus!
