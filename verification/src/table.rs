//! A small table keyed by text, which keeps its entries in the order in which
//! their keys first came and never holds a key twice.

use vstd::prelude::*;
use crate::text::same_text;

verus! {

/// Index of the first entry of `s` with key `k`, or `s.len()` when there is none.
pub open spec fn key_index<T>(s: Seq<(Seq<char>, T)>, k: Seq<char>) -> int
    decreases s.len(),
{
    if s.len() == 0 || s[0].0 == k {
        0
    } else {
        1 + key_index(s.drop_first(), k)
    }
}

/// Some entry of `s` has key `k`.
pub open spec fn has_key<T>(s: Seq<(Seq<char>, T)>, k: Seq<char>) -> bool {
    key_index(s, k) < s.len()
}

/// The value of the first entry of `s` with key `k`.
pub open spec fn value_of<T>(s: Seq<(Seq<char>, T)>, k: Seq<char>) -> T {
    s[key_index(s, k)].1
}

/// `s` with `v` under `k`: in the place of the old value where `k` was there,
/// else as a new last entry.
pub open spec fn put<T>(s: Seq<(Seq<char>, T)>, k: Seq<char>, v: T) -> Seq<(Seq<char>, T)> {
    if has_key(s, k) {
        s.update(key_index(s, k), (k, v))
    } else {
        s.push((k, v))
    }
}

/// `s` without its first entry with key `k`.
pub open spec fn without<T>(s: Seq<(Seq<char>, T)>, k: Seq<char>) -> Seq<(Seq<char>, T)> {
    if has_key(s, k) {
        s.remove(key_index(s, k))
    } else {
        s
    }
}

/// No two entries of `s` have the same key.
pub open spec fn distinct_keys<T>(s: Seq<(Seq<char>, T)>) -> bool {
    forall|i: int, j: int| 0 <= i < j < s.len() ==> s[i].0 != s[j].0
}

/// `key_index` points at the first entry with the key, and at nothing else.
pub proof fn lemma_key_index<T>(s: Seq<(Seq<char>, T)>, k: Seq<char>)
    ensures
        0 <= key_index(s, k) <= s.len(),
        forall|j: int| 0 <= j < key_index(s, k) ==> s[j].0 != k,
        key_index(s, k) < s.len() ==> s[key_index(s, k)].0 == k,
    decreases s.len(),
{
    if s.len() > 0 && s[0].0 != k {
        lemma_key_index(s.drop_first(), k);
        let r = key_index(s.drop_first(), k);
        assert forall|j: int| 0 <= j < 1 + r implies s[j].0 != k by {
            if j > 0 {
                assert(s.drop_first()[j - 1] == s[j]);
            }
        }
    }
}

/// An index with no entry of key `k` before it, which holds `k` or is the
/// length, is the one `key_index` gives.
pub proof fn lemma_key_index_is<T>(s: Seq<(Seq<char>, T)>, k: Seq<char>, i: int)
    requires
        0 <= i <= s.len(),
        forall|j: int| 0 <= j < i ==> s[j].0 != k,
        i < s.len() ==> s[i].0 == k,
    ensures
        key_index(s, k) == i,
{
    lemma_key_index(s, k);
}

/// Putting a value under a key keeps the keys distinct, makes the key present
/// with that value, and leaves every other key as it was.
pub proof fn lemma_put<T>(s: Seq<(Seq<char>, T)>, k: Seq<char>, v: T)
    requires
        distinct_keys(s),
    ensures
        distinct_keys(put(s, k, v)),
        has_key(put(s, k, v), k),
        value_of(put(s, k, v), k) == v,
        forall|other: Seq<char>| other != k ==> has_key(put(s, k, v), other) == has_key(s, other),
        forall|other: Seq<char>| other != k && has_key(s, other) ==> value_of(put(s, k, v), other) == value_of(s, other),
        put(s, k, v).len() == if has_key(s, k) { s.len() } else { s.len() + 1 },
{
    let t = put(s, k, v);
    let i = key_index(s, k);
    lemma_key_index(s, k);
    lemma_key_index_is(t, k, i);
    assert forall|other: Seq<char>| other != k implies has_key(t, other) == has_key(s, other) && (has_key(s, other)
        ==> value_of(t, other) == value_of(s, other)) by {
        lemma_key_index(s, other);
        let j = key_index(s, other);
        if j < s.len() {
            lemma_key_index_is(t, other, j);
        } else {
            lemma_key_index_is(t, other, t.len() as int);
        }
    }
}

/// Taking a key out keeps the keys distinct, makes the key absent, and leaves
/// every other key as it was.
pub proof fn lemma_without<T>(s: Seq<(Seq<char>, T)>, k: Seq<char>)
    requires
        distinct_keys(s),
    ensures
        distinct_keys(without(s, k)),
        !has_key(without(s, k), k),
        forall|other: Seq<char>| other != k ==> has_key(without(s, k), other) == has_key(s, other),
        forall|other: Seq<char>| other != k && has_key(s, other) ==> value_of(without(s, k), other) == value_of(s, other),
        without(s, k).len() == if has_key(s, k) { s.len() - 1 } else { s.len() as int },
{
    let t = without(s, k);
    let i = key_index(s, k);
    lemma_key_index(s, k);
    lemma_key_index_is(t, k, t.len() as int);
    assert forall|other: Seq<char>| other != k implies has_key(t, other) == has_key(s, other) && (has_key(s, other)
        ==> value_of(t, other) == value_of(s, other)) by {
        lemma_key_index(s, other);
        let j = key_index(s, other);
        if j < s.len() {
            if has_key(s, k) && j > i {
                lemma_key_index_is(t, other, j - 1);
            } else {
                lemma_key_index_is(t, other, j);
            }
        } else {
            lemma_key_index_is(t, other, t.len() as int);
        }
    }
}

/// A table from text to `V`.
#[derive(Debug)]
pub struct Table<V: View> {
    entries: Vec<(String, V)>,
}

impl<V: View> View for Table<V> {
    type V = Seq<(Seq<char>, V::V)>;

    closed spec fn view(&self) -> Seq<(Seq<char>, V::V)> {
        pairs_of(self.entries@)
    }
}

/// The entries as pairs of plain values.
spec fn pairs_of<V: View>(entries: Seq<(String, V)>) -> Seq<(Seq<char>, V::V)> {
    Seq::new(entries.len(), |i: int| (entries[i].0@, entries[i].1@))
}

impl<V: View> Table<V> {
    #[verifier::type_invariant]
    spec fn no_key_twice(&self) -> bool {
        distinct_keys(self@)
    }

    /// Does nothing when run; tells the caller's proof that the keys are distinct.
    pub fn keys_are_distinct(&self)
        ensures
            distinct_keys(self@),
    {
        proof {
            use_type_invariant(self);
        }
    }

    /// The empty table.
    pub fn new() -> (t: Self)
        ensures
            t@ == Seq::<(Seq<char>, V::V)>::empty(),
    {
        let t = Table { entries: Vec::new() };
        t
    }

    /// How many entries the table has.
    pub fn len(&self) -> (n: usize)
        ensures
            n == self@.len(),
    {
        self.entries.len()
    }

    /// Whether the table has no entry.
    pub fn is_empty(&self) -> (b: bool)
        ensures
            b == (self@.len() == 0),
    {
        self.entries.len() == 0
    }

    /// The place of `key` among the entries, or `len()` where it is absent.
    pub fn position(&self, key: &str) -> (i: usize)
        ensures
            i == key_index(self@, key@),
    {
        let mut i: usize = 0;
        while i < self.entries.len() && !same_text(self.entries[i].0.as_str(), key)
            invariant
                i <= self.entries@.len(),
                forall|j: int| 0 <= j < i ==> self@[j].0 != key@,
            decreases self.entries.len() - i,
        {
            i += 1;
        }
        proof {
            lemma_key_index_is(self@, key@, i as int);
        }
        i
    }

    /// Whether `key` has an entry.
    pub fn contains_key(&self, key: &str) -> (b: bool)
        ensures
            b == has_key(self@, key@),
    {
        self.position(key) < self.entries.len()
    }

    /// The value under `key`, if it has an entry.
    pub fn get(&self, key: &str) -> (r: Option<&V>)
        ensures
            r is Some == has_key(self@, key@),
            r is Some ==> r->Some_0@ == value_of(self@, key@),
    {
        let i = self.position(key);
        if i < self.entries.len() {
            Some(&self.entries[i].1)
        } else {
            None
        }
    }

    /// The key of the `i`-th entry.
    pub fn key_at(&self, i: usize) -> (k: &str)
        requires
            i < self@.len(),
        ensures
            k@ == self@[i as int].0,
    {
        self.entries[i].0.as_str()
    }

    /// The value of the `i`-th entry.
    pub fn value_at(&self, i: usize) -> (v: &V)
        requires
            i < self@.len(),
        ensures
            v@ == self@[i as int].1,
    {
        &self.entries[i].1
    }

    /// Puts `value` under `key` and hands back the value that was there.
    pub fn insert(&mut self, key: String, value: V) -> (r: Option<V>)
        ensures
            final(self)@ == put(old(self)@, key@, value@),
            r is Some == has_key(old(self)@, key@),
            r is Some ==> r->Some_0@ == value_of(old(self)@, key@),
    {
        proof {
            use_type_invariant(&*self);
            lemma_put(self@, key@, value@);
        }
        let i = self.position(key.as_str());
        let ghost before = self@;
        let ghost k = key@;
        let ghost v = value@;
        let mut entries: Vec<(String, V)> = Vec::new();
        core::mem::swap(&mut entries, &mut self.entries);
        let n: usize = entries.len();
        entries.push((key, value));
        if i < n {
            let gone = entries.swap_remove(i);
            assert(pairs_of(entries@) =~= put(before, k, v));
            self.entries = entries;
            Some(gone.1)
        } else {
            assert(pairs_of(entries@) =~= put(before, k, v));
            self.entries = entries;
            None
        }
    }

    /// Takes the entry of `key` out and hands back its value.
    pub fn remove(&mut self, key: &str) -> (r: Option<V>)
        ensures
            final(self)@ == without(old(self)@, key@),
            r is Some == has_key(old(self)@, key@),
            r is Some ==> r->Some_0@ == value_of(old(self)@, key@),
    {
        proof {
            use_type_invariant(&*self);
            lemma_without(self@, key@);
        }
        let i = self.position(key);
        let ghost before = self@;
        if i < self.entries.len() {
            let mut entries: Vec<(String, V)> = Vec::new();
            core::mem::swap(&mut entries, &mut self.entries);
            let gone = entries.remove(i);
            assert(pairs_of(entries@) =~= without(before, key@));
            self.entries = entries;
            Some(gone.1)
        } else {
            None
        }
    }
}

impl<V: View> Table<V> {
    /// The value of the `i`-th entry, as it is held.
    pub closed spec fn value(&self, i: int) -> V {
        self.entries@[i].1
    }

    /// The view of a table shows the views of the values it holds.
    pub proof fn lemma_value(&self, i: int)
        requires
            0 <= i < self@.len(),
        ensures
            self@[i].1 == self.value(i)@,
    {
    }
}

impl<V: View + Clone> Clone for Table<V> {
    /// A table with the same keys in the same order, each with a clone of its
    /// value.
    fn clone(&self) -> (c: Self)
        ensures
            c@.len() == self@.len(),
            forall|i: int| 0 <= i < self@.len() ==> (#[trigger] c@[i]).0 == self@[i].0,
            forall|i: int| 0 <= i < self@.len() ==> cloned::<V>(#[trigger] self.value(i), c.value(i)),
    {
        proof {
            use_type_invariant(self);
        }
        let mut entries: Vec<(String, V)> = Vec::new();
        let mut i: usize = 0;
        while i < self.entries.len()
            invariant
                i <= self.entries@.len(),
                entries@.len() == i,
                forall|j: int| 0 <= j < i ==> (#[trigger] entries@[j]).0@ == self.entries@[j].0@,
                forall|j: int| 0 <= j < i ==> cloned::<V>(self.entries@[j].1, (#[trigger] entries@[j]).1),
            decreases self.entries@.len() - i,
        {
            let key = self.entries[i].0.clone();
            let value = self.entries[i].1.clone();
            entries.push((key, value));
            i += 1;
        }
        assert(distinct_keys(pairs_of(entries@))) by {
            assert forall|a: int, b: int| 0 <= a < b < entries@.len() implies pairs_of(entries@)[a].0 != pairs_of(
                entries@,
            )[b].0 by {
                assert(pairs_of(entries@)[a].0 == self@[a].0);
                assert(pairs_of(entries@)[b].0 == self@[b].0);
            }
        }
        Table { entries }
    }
}

} // verus!
