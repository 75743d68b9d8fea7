//! A small map from strings to values that keeps its keys in the order in
//! which they were first inserted.

use vstd::prelude::*;
use crate::text::str_eq;

verus! {

/// The index of the first entry of `entries` whose key is `key`.
pub open spec fn index_of<V>(entries: Seq<(Seq<char>, V)>, key: Seq<char>) -> Option<int>
    decreases entries.len(),
{
    if entries.len() == 0 {
        None
    } else if entries.last().0 == key && index_of(entries.drop_last(), key) is None {
        Some(entries.len() - 1)
    } else {
        index_of(entries.drop_last(), key)
    }
}

/// The value that `entries` holds for `key`.
pub open spec fn lookup<V>(entries: Seq<(Seq<char>, V)>, key: Seq<char>) -> Option<V> {
    match index_of(entries, key) {
        Some(i) => Some(entries[i].1),
        None => None,
    }
}

/// `entries` with `value` stored under `key`: in place where the key is
/// present, at the end where it is not.
pub open spec fn stored<V>(entries: Seq<(Seq<char>, V)>, key: Seq<char>, value: V) -> Seq<
    (Seq<char>, V),
> {
    match index_of(entries, key) {
        Some(i) => entries.update(i, (key, value)),
        None => entries.push((key, value)),
    }
}

/// `entries` without the entry stored under `key`, if there is one.
pub open spec fn removed<V>(entries: Seq<(Seq<char>, V)>, key: Seq<char>) -> Seq<(Seq<char>, V)> {
    match index_of(entries, key) {
        Some(i) => entries.remove(i),
        None => entries,
    }
}

/// Whether no key occurs twice in `entries`.
pub open spec fn distinct_keys<V>(entries: Seq<(Seq<char>, V)>) -> bool {
    forall|i: int, j: int|
        0 <= i < j < entries.len() ==> (#[trigger] entries[i]).0 != (#[trigger] entries[j]).0
}

/// `index_of` finds the first entry with the key, and none where there is
/// none.
pub proof fn lemma_index_of<V>(entries: Seq<(Seq<char>, V)>, key: Seq<char>)
    ensures
        match index_of(entries, key) {
            Some(i) => {
                &&& 0 <= i < entries.len()
                &&& entries[i].0 == key
                &&& forall|j: int| 0 <= j < i ==> (#[trigger] entries[j]).0 != key
            },
            None => forall|j: int| 0 <= j < entries.len() ==> (#[trigger] entries[j]).0 != key,
        },
    decreases entries.len(),
{
    if entries.len() > 0 {
        let init = entries.drop_last();
        lemma_index_of(init, key);
        assert forall|j: int| 0 <= j < init.len() implies init[j] == entries[j] by {}
        match index_of(init, key) {
            Some(i) => {
                assert(entries[i] == init[i]);
                assert forall|j: int| 0 <= j < i implies (#[trigger] entries[j]).0 != key by {
                    assert(entries[j] == init[j]);
                }
            },
            None => {
                assert forall|j: int| 0 <= j < init.len() implies (#[trigger] entries[j]).0
                    != key by {
                    assert(entries[j] == init[j]);
                }
            },
        }
    }
}

/// An index whose entry has the key and which no entry with the key precedes
/// is the one that `index_of` finds.
pub proof fn lemma_index_of_first<V>(entries: Seq<(Seq<char>, V)>, key: Seq<char>, i: int)
    requires
        0 <= i < entries.len(),
        entries[i].0 == key,
        forall|j: int| 0 <= j < i ==> (#[trigger] entries[j]).0 != key,
    ensures
        index_of(entries, key) == Some(i),
{
    lemma_index_of(entries, key);
}

/// Where no entry has the key, `index_of` finds none.
pub proof fn lemma_index_of_none<V>(entries: Seq<(Seq<char>, V)>, key: Seq<char>)
    requires
        forall|j: int| 0 <= j < entries.len() ==> (#[trigger] entries[j]).0 != key,
    ensures
        index_of(entries, key) is None,
{
    lemma_index_of(entries, key);
}

/// After `key` is stored, a lookup of `key` gives the stored value and a
/// lookup of any other key gives what it gave before; distinct keys stay
/// distinct.
pub proof fn lemma_stored<V>(entries: Seq<(Seq<char>, V)>, key: Seq<char>, value: V, other: Seq<char>)
    ensures
        lookup(stored(entries, key, value), other) == if other == key {
            Some(value)
        } else {
            lookup(entries, other)
        },
        distinct_keys(entries) ==> distinct_keys(stored(entries, key, value)),
{
    let after = stored(entries, key, value);
    lemma_index_of(entries, key);
    lemma_index_of(entries, other);
    lemma_index_of(after, other);
    match index_of(entries, key) {
        Some(i) => {
            assert forall|j: int| 0 <= j < after.len() implies (#[trigger] after[j]).0
                == entries[j].0 by {}
            match index_of(entries, other) {
                Some(k) => {
                    assert(after[k].0 == other);
                    assert forall|j: int| 0 <= j < k implies (#[trigger] after[j]).0 != other by {
                        assert(entries[j].0 != other);
                    }
                    lemma_index_of_first(after, other, k);
                },
                None => {
                    assert forall|j: int| 0 <= j < after.len() implies (#[trigger] after[j]).0
                        != other by {
                        assert(entries[j].0 != other);
                    }
                    lemma_index_of_none(after, other);
                },
            }
            if distinct_keys(entries) {
                assert forall|a: int, b: int| 0 <= a < b < after.len() implies (#[trigger] after[a]).0
                    != (#[trigger] after[b]).0 by {
                    assert(entries[a].0 != entries[b].0);
                }
            }
        },
        None => {
            assert forall|j: int| 0 <= j < entries.len() implies (#[trigger] after[j])
                == entries[j] by {}
            match index_of(entries, other) {
                Some(k) => {
                    assert(after[k].0 == other);
                    assert forall|j: int| 0 <= j < k implies (#[trigger] after[j]).0 != other by {
                        assert(entries[j].0 != other);
                    }
                    lemma_index_of_first(after, other, k);
                },
                None => {
                    if other == key {
                        assert(after[entries.len() as int].0 == key);
                        assert forall|j: int| 0 <= j < entries.len() implies (#[trigger] after[j]).0
                            != other by {
                            assert(entries[j].0 != other);
                        }
                        lemma_index_of_first(after, other, entries.len() as int);
                    } else {
                        assert forall|j: int| 0 <= j < after.len() implies (#[trigger] after[j]).0
                            != other by {
                            if j < entries.len() {
                                assert(entries[j].0 != other);
                            }
                        }
                        lemma_index_of_none(after, other);
                    }
                },
            }
            if distinct_keys(entries) {
                assert forall|a: int, b: int| 0 <= a < b < after.len() implies (#[trigger] after[a]).0
                    != (#[trigger] after[b]).0 by {
                    if b < entries.len() {
                        assert(entries[a].0 != entries[b].0);
                    } else {
                        assert(entries[a].0 != key);
                    }
                }
            }
        },
    }
}

/// After `key` is removed from entries with distinct keys, a lookup of `key`
/// gives nothing and a lookup of any other key gives what it gave before;
/// the keys stay distinct.
pub proof fn lemma_removed<V>(entries: Seq<(Seq<char>, V)>, key: Seq<char>, other: Seq<char>)
    requires
        distinct_keys(entries),
    ensures
        lookup(removed(entries, key), other) == if other == key {
            None
        } else {
            lookup(entries, other)
        },
        distinct_keys(removed(entries, key)),
{
    let after = removed(entries, key);
    lemma_index_of(entries, key);
    lemma_index_of(entries, other);
    lemma_index_of(after, other);
    match index_of(entries, key) {
        Some(i) => {
            assert forall|j: int| 0 <= j < after.len() implies #[trigger] after[j] == entries[if j
                < i {
                j
            } else {
                j + 1
            }] by {}
            assert forall|a: int, b: int| 0 <= a < b < after.len() implies (#[trigger] after[a]).0
                != (#[trigger] after[b]).0 by {
                let a0 = if a < i {
                    a
                } else {
                    a + 1
                };
                let b0 = if b < i {
                    b
                } else {
                    b + 1
                };
                assert(entries[a0].0 != entries[b0].0);
            }
            if other == key {
                assert forall|j: int| 0 <= j < after.len() implies (#[trigger] after[j]).0
                    != other by {
                    let j0 = if j < i {
                        j
                    } else {
                        j + 1
                    };
                    if j0 < i {
                        assert(entries[j0].0 != entries[i].0);
                    } else {
                        assert(entries[i].0 != entries[j0].0);
                    }
                }
                lemma_index_of_none(after, other);
            } else {
                match index_of(entries, other) {
                    Some(k) => {
                        let k1 = if k < i {
                            k
                        } else {
                            k - 1
                        };
                        assert(after[k1] == entries[k]);
                        assert forall|j: int| 0 <= j < k1 implies (#[trigger] after[j]).0
                            != other by {
                            let j0 = if j < i {
                                j
                            } else {
                                j + 1
                            };
                            assert(entries[j0].0 != other);
                        }
                        lemma_index_of_first(after, other, k1);
                    },
                    None => {
                        assert forall|j: int| 0 <= j < after.len() implies (#[trigger] after[j]).0
                            != other by {
                            let j0 = if j < i {
                                j
                            } else {
                                j + 1
                            };
                            assert(entries[j0].0 != other);
                        }
                        lemma_index_of_none(after, other);
                    },
                }
            }
        },
        None => {},
    }
}

/// A map from strings to values, in insertion order, with no key twice.
#[derive(Debug)]
pub struct Table<V> {
    entries: Vec<(String, V)>,
}

impl<V> View for Table<V> {
    type V = Seq<(Seq<char>, V)>;

    /// The entries in order, each key by its characters.
    closed spec fn view(&self) -> Seq<(Seq<char>, V)> {
        self.entries@.map_values(|e: (String, V)| (e.0@, e.1))
    }
}

impl<V> Table<V> {
    #[verifier::type_invariant]
    spec fn well_formed(self) -> bool {
        distinct_keys(self@)
    }

    /// An empty table.
    pub fn new() -> (table: Self)
        ensures
            table@ == Seq::<(Seq<char>, V)>::empty(),
    {
        let table = Table { entries: Vec::new() };
        assert(table@ =~= Seq::<(Seq<char>, V)>::empty());
        table
    }

    /// The number of entries, which is the number of keys: none occurs twice.
    pub fn len(&self) -> (n: usize)
        ensures
            n == self@.len(),
            distinct_keys(self@),
    {
        proof {
            use_type_invariant(self);
        }
        self.entries.len()
    }

    /// The key of the entry at `index`.
    pub fn key_at(&self, index: usize) -> (key: &str)
        requires
            index < self@.len(),
        ensures
            key@ == self@[index as int].0,
    {
        self.entries[index].0.as_str()
    }

    /// The value of the entry at `index`.
    pub fn value_at(&self, index: usize) -> (value: &V)
        requires
            index < self@.len(),
        ensures
            *value == self@[index as int].1,
    {
        &self.entries[index].1
    }

    /// The index of the entry with the key `key`.
    pub fn position(&self, key: &str) -> (found: Option<usize>)
        ensures
            match found {
                Some(i) => index_of(self@, key@) == Some(i as int),
                None => index_of(self@, key@) is None,
            },
    {
        let mut i: usize = 0;
        while i < self.entries.len()
            invariant
                i <= self.entries.len(),
                forall|j: int| 0 <= j < i ==> (#[trigger] self@[j]).0 != key@,
            decreases self.entries.len() - i,
        {
            if str_eq(self.entries[i].0.as_str(), key) {
                proof {
                    lemma_index_of_first(self@, key@, i as int);
                }
                return Some(i);
            }
            i += 1;
        }
        proof {
            lemma_index_of_none(self@, key@);
        }
        None
    }

    /// The value stored under `key`.
    pub fn get(&self, key: &str) -> (found: Option<&V>)
        ensures
            match found {
                Some(value) => lookup(self@, key@) == Some(*value),
                None => lookup(self@, key@) is None,
            },
    {
        proof {
            lemma_index_of(self@, key@);
        }
        match self.position(key) {
            Some(i) => Some(&self.entries[i].1),
            None => None,
        }
    }

    /// Stores `value` under `key`, in place of what was stored there before.
    pub fn insert(&mut self, key: String, value: V)
        ensures
            final(self)@ == stored(old(self)@, key@, value),
    {
        proof {
            use_type_invariant(&*self);
            lemma_index_of(self@, key@);
            lemma_stored(self@, key@, value, key@);
        }
        let ghost before = self@;
        let found = self.position(key.as_str());
        let mut entries: Vec<(String, V)> = Vec::new();
        assert(entries@.map_values(|e: (String, V)| (e.0@, e.1)) =~= Seq::empty());
        core::mem::swap(&mut self.entries, &mut entries);
        match found {
            Some(i) => {
                entries.set(i, (key, value));
                assert(entries@.map_values(|e: (String, V)| (e.0@, e.1)) =~= before.update(
                    i as int,
                    (key@, value),
                ));
            },
            None => {
                entries.push((key, value));
                assert(entries@.map_values(|e: (String, V)| (e.0@, e.1)) =~= before.push(
                    (key@, value),
                ));
            },
        }
        self.entries = entries;
    }

    /// Removes what is stored under `key`, if anything.
    pub fn remove(&mut self, key: &str)
        ensures
            final(self)@ == removed(old(self)@, key@),
    {
        proof {
            use_type_invariant(&*self);
            lemma_removed(self@, key@, key@);
            lemma_index_of(self@, key@);
        }
        let ghost before = self@;
        match self.position(key) {
            Some(i) => {
                let mut entries: Vec<(String, V)> = Vec::new();
                assert(entries@.map_values(|e: (String, V)| (e.0@, e.1)) =~= Seq::empty());
                core::mem::swap(&mut self.entries, &mut entries);
                assert(entries@.len() == before.len());
                let _ = entries.remove(i);
                assert(entries@.map_values(|e: (String, V)| (e.0@, e.1)) =~= before.remove(
                    i as int,
                ));
                self.entries = entries;
            },
            None => {},
        }
    }

    /// Removes every entry.
    pub fn clear(&mut self)
        ensures
            final(self)@ == Seq::<(Seq<char>, V)>::empty(),
    {
        let entries: Vec<(String, V)> = Vec::new();
        assert(entries@.map_values(|e: (String, V)| (e.0@, e.1)) =~= Seq::empty());
        self.entries = entries;
    }
}

} // verus!
