//! A small map keyed by names that keeps the order in which keys were first inserted.
use vstd::prelude::*;
use crate::text::{chars_eq, to_chars};

verus! {

/// Entries keyed by strings; each key occurs at most once, in first-insertion order.
#[derive(Debug)]
pub struct Table<V> {
    pub entries: Vec<(String, V)>,
}

/// The position of key `k` in `e`, if present (the first such position).
pub open spec fn key_pos<V>(e: Seq<(String, V)>, k: Seq<char>) -> Option<int>
    decreases e.len(),
{
    if e.len() == 0 {
        None
    } else if e[0].0@ == k {
        Some(0)
    } else {
        match key_pos(e.drop_first(), k) {
            Some(i) => Some(i + 1),
            None => None,
        }
    }
}

/// The value stored under `k`.
pub open spec fn lookup<V>(e: Seq<(String, V)>, k: Seq<char>) -> Option<V> {
    match key_pos(e, k) {
        Some(i) => Some(e[i].1),
        None => None,
    }
}

/// The entries after storing `v` under `k`: an existing entry is replaced in place,
/// otherwise the entry is added at the end.
pub open spec fn store<V>(e: Seq<(String, V)>, k: String, v: V) -> Seq<(String, V)> {
    match key_pos(e, k@) {
        Some(i) => e.update(i, (k, v)),
        None => e.push((k, v)),
    }
}

/// The keys, in order.
pub open spec fn keys_of<V>(e: Seq<(String, V)>) -> Seq<Seq<char>> {
    e.map_values(|p: (String, V)| p.0@)
}

/// Each key occurs once.
pub open spec fn keys_unique<V>(e: Seq<(String, V)>) -> bool {
    forall|i: int, j: int| 0 <= i < j < e.len() ==> e[i].0@ != e[j].0@
}

pub proof fn lemma_key_pos<V>(e: Seq<(String, V)>, k: Seq<char>)
    ensures
        key_pos(e, k) matches Some(i) ==> 0 <= i < e.len() && e[i].0@ == k && forall|j: int| 0 <= j < i ==> e[j].0@ != k,
        key_pos(e, k) is None ==> forall|j: int| 0 <= j < e.len() ==> e[j].0@ != k,
    decreases e.len(),
{
    if e.len() > 0 && e[0].0@ != k {
        lemma_key_pos(e.drop_first(), k);
        assert forall|j: int| 1 <= j < e.len() implies e[j] == e.drop_first()[j - 1] by {}
    }
}

pub proof fn lemma_key_pos_unique<V>(e: Seq<(String, V)>, i: int)
    requires
        keys_unique(e),
        0 <= i < e.len(),
    ensures
        key_pos(e, e[i].0@) == Some(i),
{
    lemma_key_pos(e, e[i].0@);
}

impl<V> Table<V> {
    /// An empty table.
    pub fn new() -> (t: Self)
        ensures
            t.entries@ == Seq::<(String, V)>::empty(),
    {
        Table { entries: Vec::new() }
    }

    /// The position of `key`.
    pub fn position(&self, key: &[char]) -> (r: Option<usize>)
        ensures
            r matches Some(i) ==> key_pos(self.entries@, key@) == Some(i as int),
            r is None ==> key_pos(self.entries@, key@) is None,
    {
        proof { lemma_key_pos(self.entries@, key@); }
        let mut i: usize = 0;
        while i < self.entries.len()
            invariant
                i <= self.entries@.len(),
                forall|j: int| 0 <= j < i ==> self.entries@[j].0@ != key@,
            decreases self.entries@.len() - i,
        {
            let k = to_chars(self.entries[i].0.as_str());
            if chars_eq(k.as_slice(), key) {
                proof {
                    if key_pos(self.entries@, key@) != Some(i as int) {
                        lemma_key_pos(self.entries@, key@);
                    }
                }
                return Some(i);
            }
            i = i + 1;
        }
        None
    }

    /// The value stored under `key`.
    pub fn get(&self, key: &[char]) -> (r: Option<&V>)
        ensures
            r matches Some(v) ==> lookup(self.entries@, key@) == Some(*v),
            r is None ==> lookup(self.entries@, key@) is None,
    {
        proof { lemma_key_pos(self.entries@, key@); }
        match self.position(key) {
            Some(i) => Some(&self.entries[i].1),
            None => None,
        }
    }

    /// Store `value` under `key` (see `store`).
    pub fn insert(&mut self, key: String, value: V)
        requires
            keys_unique(old(self).entries@),
        ensures
            final(self).entries@ == store(old(self).entries@, key, value),
            keys_unique(final(self).entries@),
    {
        let kc = to_chars(key.as_str());
        proof { lemma_key_pos(self.entries@, key@); }
        match self.position(kc.as_slice()) {
            Some(i) => {
                self.entries.set(i, (key, value));
            },
            None => {
                self.entries.push((key, value));
            },
        }
    }
}

/// Storing under `k` changes the value found under `k` only.
pub proof fn lemma_lookup_store<V>(e: Seq<(String, V)>, k: String, v: V, x: Seq<char>)
    ensures
        lookup(store(e, k, v), x) == if x == k@ { Some(v) } else { lookup(e, x) },
{
    lemma_key_pos(e, k@);
    lemma_key_pos(e, x);
    let s = store(e, k, v);
    lemma_key_pos(s, x);
    match key_pos(e, k@) {
        Some(i) => {
            if x == k@ {
                assert(s[i].0@ == x);
            } else {
                match key_pos(e, x) {
                    Some(j) => {
                        assert(s[j] == e[j]);
                        assert(key_pos(s, x) == Some(j)) by {
                            if key_pos(s, x) != Some(j) {
                                match key_pos(s, x) {
                                    Some(m) => {
                                        if m < j { assert(s[m] == e[m] || m == i); }
                                    },
                                    None => {},
                                }
                            }
                        }
                    },
                    None => {
                        assert forall|m: int| 0 <= m < s.len() implies s[m].0@ != x by {
                            if m != i { assert(s[m] == e[m]); }
                        }
                    },
                }
            }
        },
        None => {
            if x == k@ {
                assert(s[e.len() as int].0@ == x);
                assert forall|m: int| 0 <= m < e.len() implies s[m].0@ != x by {
                    assert(s[m] == e[m]);
                }
            } else {
                match key_pos(e, x) {
                    Some(j) => {
                        assert(s[j] == e[j]);
                        assert forall|m: int| 0 <= m < j implies s[m].0@ != x by {
                            assert(s[m] == e[m]);
                        }
                    },
                    None => {
                        assert forall|m: int| 0 <= m < s.len() implies s[m].0@ != x by {
                            if m < e.len() { assert(s[m] == e[m]); }
                        }
                    },
                }
            }
        },
    }
}

/// The table as a map from keys to the values seen through `f`.
pub open spec fn table_map<V, W>(e: Seq<(String, V)>, f: spec_fn(V) -> W) -> Map<Seq<char>, W> {
    Map::new(|k: Seq<char>| key_pos(e, k) is Some, |k: Seq<char>| f(lookup(e, k)->Some_0))
}

/// Storing a value adds (or replaces) exactly one entry of the map.
pub proof fn lemma_table_map_store<V, W>(e: Seq<(String, V)>, k: String, v: V, f: spec_fn(V) -> W)
    ensures
        table_map(store(e, k, v), f) == table_map(e, f).insert(k@, f(v)),
{
    let a = table_map(store(e, k, v), f);
    let b = table_map(e, f).insert(k@, f(v));
    assert forall|x: Seq<char>| #[trigger] a.dom().contains(x) == b.dom().contains(x) by {
        lemma_lookup_store(e, k, v, x);
    }
    assert forall|x: Seq<char>| a.dom().contains(x) implies #[trigger] a[x] == b[x] by {
        lemma_lookup_store(e, k, v, x);
    }
    assert(table_map(store(e, k, v), f) =~= table_map(e, f).insert(k@, f(v)));
}

impl<V> Table<V> {
    /// Whether `key` has an entry.
    pub fn contains_key(&self, key: &str) -> (b: bool)
        ensures
            b == (key_pos(self.entries@, key@) is Some),
    {
        let k = to_chars(key);
        self.position(k.as_slice()).is_some()
    }

    /// The value stored under `key`.
    pub fn find(&self, key: &str) -> (r: Option<&V>)
        ensures
            r matches Some(v) ==> lookup(self.entries@, key@) == Some(*v),
            r is None ==> lookup(self.entries@, key@) is None,
    {
        let k = to_chars(key);
        self.get(k.as_slice())
    }

    /// The number of entries.
    pub fn len(&self) -> (n: usize)
        ensures
            n == self.entries@.len(),
    {
        self.entries.len()
    }

    /// Whether the table has no entry.
    pub fn is_empty(&self) -> (b: bool)
        ensures
            b == (self.entries@.len() == 0),
    {
        self.entries.len() == 0
    }
}

} // verus!
