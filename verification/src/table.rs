//! A small ordered map from text keys to values.
//!
//! Entries keep the order in which their keys were first inserted, and a
//! later insert under an existing key replaces the value in place. Walking a
//! table is therefore deterministic, which the query pipeline relies on.

use crate::text::{str_eq, views};
use vstd::prelude::*;

verus! {

/// The keys of a sequence of entries, in order.
pub open spec fn keys_of<W>(entries: Seq<(Seq<char>, W)>) -> Seq<Seq<char>> {
    Seq::new(entries.len(), |i: int| entries[i].0)
}

/// No key occurs twice.
pub open spec fn distinct_keys<W>(entries: Seq<(Seq<char>, W)>) -> bool {
    keys_of(entries).no_duplicates()
}

/// The value stored under `key`, if any.
pub open spec fn lookup<W>(entries: Seq<(Seq<char>, W)>, key: Seq<char>) -> Option<W> {
    if keys_of(entries).contains(key) {
        Some(entries[keys_of(entries).index_of(key)].1)
    } else {
        None
    }
}

/// The entries after storing `value` under `key`: replaced in place when
/// the key is present, appended otherwise.
pub open spec fn put<W>(entries: Seq<(Seq<char>, W)>, key: Seq<char>, value: W) -> Seq<
    (Seq<char>, W),
> {
    if keys_of(entries).contains(key) {
        entries.update(keys_of(entries).index_of(key), (key, value))
    } else {
        entries.push((key, value))
    }
}

/// Storing a value keeps the keys distinct.
pub proof fn lemma_put_distinct<W>(entries: Seq<(Seq<char>, W)>, key: Seq<char>, value: W)
    requires
        distinct_keys(entries),
    ensures
        distinct_keys(put(entries, key, value)),
{
    let after = put(entries, key, value);
    let keys = keys_of(entries);
    if keys.contains(key) {
        assert(keys_of(after) =~= keys);
    } else {
        assert(keys_of(after) =~= keys.push(key));
        assert forall|i: int, j: int|
            0 <= i < keys.len() + 1 && 0 <= j < keys.len() + 1 && i != j implies keys.push(key)[i]
            != keys.push(key)[j] by {
            if i < keys.len() && j < keys.len() {
            } else if i < keys.len() {
                assert(keys.contains(keys[i]));
            } else {
                assert(keys.contains(keys[j]));
            }
        }
    }
}

/// What is found after storing a value: the new value under its key, the
/// old content under every other key.
pub proof fn lemma_put_lookup<W>(
    entries: Seq<(Seq<char>, W)>,
    key: Seq<char>,
    value: W,
    other: Seq<char>,
)
    requires
        distinct_keys(entries),
    ensures
        lookup(put(entries, key, value), other) == if other == key {
            Some(value)
        } else {
            lookup(entries, other)
        },
{
    let after = put(entries, key, value);
    let keys = keys_of(entries);
    lemma_put_distinct(entries, key, value);
    if keys.contains(key) {
        let at = keys.index_of(key);
        assert(keys_of(after) =~= keys);
        if other != key && keys.contains(other) {
            assert(keys.index_of(other) != at);
        }
    } else {
        let grown = keys_of(after);
        assert(grown =~= keys.push(key));
        if other == key {
            assert(grown[keys.len() as int] == key);
            assert(grown.contains(key));
            let found = grown.index_of(key);
            assert(found == keys.len());
        } else if keys.contains(other) {
            let at = keys.index_of(other);
            assert(grown[at] == other);
            assert(grown.contains(other));
            assert(grown.index_of(other) == at);
        } else {
            if grown.contains(other) {
                let found = grown.index_of(other);
                assert(found < keys.len());
                assert(keys[found] == other);
            }
        }
    }
}

/// An ordered map from text keys to values, with distinct keys.
#[derive(Debug, Clone)]
pub struct Table<V> {
    names: Vec<String>,
    items: Vec<V>,
}

impl<V: View> Table<V> {
    /// The entries of the table: each key with the view of its value.
    pub closed spec fn entries(&self) -> Seq<(Seq<char>, V::V)> {
        Seq::new(self.names@.len(), |i: int| (self.names@[i]@, self.items@[i]@))
    }

    /// Every key has its value.
    pub closed spec fn paired(&self) -> bool {
        self.names@.len() == self.items@.len()
    }

    /// The table is well formed: every key has its value and no key occurs
    /// twice.
    pub open spec fn wf(&self) -> bool {
        self.paired() && distinct_keys(self.entries())
    }

    /// The keys in order.
    pub open spec fn keys(&self) -> Seq<Seq<char>> {
        keys_of(self.entries())
    }

    /// An empty table.
    pub fn new() -> (table: Self)
        ensures
            table.wf(),
            table.entries() == Seq::<(Seq<char>, V::V)>::empty(),
    {
        let table = Table { names: Vec::new(), items: Vec::new() };
        assert(table.entries() =~= Seq::<(Seq<char>, V::V)>::empty());
        table
    }

    /// The number of entries.
    pub fn len(&self) -> (n: usize)
        requires
            self.wf(),
        ensures
            n == self.entries().len(),
    {
        self.names.len()
    }

    /// The key of the entry at position `i`.
    pub fn key_at(&self, i: usize) -> (key: &String)
        requires
            self.wf(),
            i < self.entries().len(),
        ensures
            key@ == self.entries()[i as int].0,
    {
        &self.names[i]
    }

    /// The value of the entry at position `i`.
    pub fn value_at(&self, i: usize) -> (value: &V)
        requires
            self.wf(),
            i < self.entries().len(),
        ensures
            value@ == self.entries()[i as int].1,
    {
        &self.items[i]
    }

    /// The position of `key` among the keys.
    pub fn position(&self, key: &str) -> (at: Option<usize>)
        requires
            self.wf(),
        ensures
            match at {
                Some(i) => i < self.entries().len() && self.keys()[i as int] == key@
                    && self.keys().index_of(key@) == i,
                None => !self.keys().contains(key@),
            },
    {
        let mut i: usize = 0;
        while i < self.names.len()
            invariant
                self.wf(),
                i <= self.names.len(),
                forall|k: int| 0 <= k < i ==> self.keys()[k] != key@,
            decreases self.names.len() - i,
        {
            if str_eq(self.names[i].as_str(), key) {
                proof {
                    assert(self.keys() =~= views(self.names@));
                    assert(self.keys()[i as int] == key@);
                    assert(self.keys().contains(key@));
                }
                return Some(i);
            }
            i += 1;
        }
        None
    }

    /// The value stored under `key`.
    pub fn get(&self, key: &str) -> (found: Option<&V>)
        requires
            self.wf(),
        ensures
            match found {
                Some(value) => lookup(self.entries(), key@) == Some(value@),
                None => lookup(self.entries(), key@).is_none(),
            },
    {
        match self.position(key) {
            Some(i) => Some(&self.items[i]),
            None => None,
        }
    }

    /// Whether `key` is present.
    pub fn contains_key(&self, key: &str) -> (present: bool)
        requires
            self.wf(),
        ensures
            present == self.keys().contains(key@),
    {
        self.position(key).is_some()
    }

    /// Stores `value` under `key`, replacing the value already there.
    pub fn insert(&mut self, key: String, value: V)
        requires
            old(self).wf(),
        ensures
            final(self).wf(),
            final(self).entries() == put(old(self).entries(), key@, value@),
    {
        let ghost before = self.entries();
        proof {
            lemma_put_distinct(before, key@, value@);
        }
        match self.position(key.as_str()) {
            Some(i) => {
                self.items[i] = value;
                proof {
                    assert(self.entries() =~= before.update(i as int, (key@, value@)));
                }
            },
            None => {
                self.names.push(key);
                self.items.push(value);
                proof {
                    assert(self.entries() =~= before.push((key@, value@)));
                }
            },
        }
    }
}

} // verus!
