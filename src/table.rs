//! A table of values keyed by name: at most one entry per name, kept in insertion order.
use vstd::prelude::*;
use crate::text::str_eq;

verus! {

/// Index of the first entry at or after `j` whose key is `name`.
pub open spec fn index_from<T>(entries: Seq<(String, T)>, name: Seq<char>, j: int) -> Option<int>
    decreases entries.len() - j,
{
    if j < 0 || j >= entries.len() {
        None
    } else if entries[j].0@ == name {
        Some(j)
    } else {
        index_from(entries, name, j + 1)
    }
}

/// What `index_from` finds: an entry with that key, and none before it.
pub proof fn lemma_index_from<T>(entries: Seq<(String, T)>, name: Seq<char>, j: int)
    requires
        0 <= j,
    ensures
        match index_from(entries, name, j) {
            Some(k) => j <= k < entries.len() && entries[k].0@ == name && forall|i: int|
                j <= i < k ==> entries[i].0@ != name,
            None => forall|i: int| j <= i < entries.len() ==> entries[i].0@ != name,
        },
    decreases entries.len() - j,
{
    if j < entries.len() && entries[j].0@ != name {
        lemma_index_from(entries, name, j + 1);
    }
}

/// Two entry lists with the same keys at the same places find the same indices.
pub proof fn lemma_index_same_keys<T>(a: Seq<(String, T)>, b: Seq<(String, T)>, name: Seq<char>, j: int)
    requires
        a.len() == b.len(),
        forall|i: int| 0 <= i < a.len() ==> a[i].0@ == b[i].0@,
    ensures
        index_from(a, name, j) == index_from(b, name, j),
    decreases a.len() - j,
{
    if 0 <= j < a.len() && a[j].0@ != name {
        lemma_index_same_keys(a, b, name, j + 1);
    }
}

/// Adding an entry at the end does not change what other keys find.
pub proof fn lemma_index_push<T>(a: Seq<(String, T)>, x: (String, T), name: Seq<char>, j: int)
    requires
        0 <= j,
        x.0@ != name || index_from(a, name, j) is Some,
    ensures
        index_from(a.push(x), name, j) == index_from(a, name, j),
    decreases a.len() - j,
{
    if j < a.len() && a[j].0@ != name {
        lemma_index_push(a, x, name, j + 1);
    } else if j == a.len() {
        assert(index_from(a.push(x), name, j + 1) is None);
    }
}

/// In a table without repeated keys, the entry with key `name` is the one found.
pub proof fn lemma_index_unique<T>(entries: Seq<(String, T)>, name: Seq<char>, j: int)
    requires
        forall|a: int, b: int|
            0 <= a < b < entries.len() ==> #[trigger] entries[a].0@ != #[trigger] entries[b].0@,
        0 <= j < entries.len(),
        entries[j].0@ == name,
    ensures
        index_from(entries, name, 0) == Some(j),
{
    lemma_index_from(entries, name, 0);
}

/// A table of values keyed by name.
#[derive(Debug)]
pub struct Table<T> {
    pub entries: Vec<(String, T)>,
}

impl<T> Table<T> {
    /// No two entries share a key.
    pub open spec fn wf(self) -> bool {
        forall|i: int, j: int|
            0 <= i < j < self.entries@.len() ==> #[trigger] self.entries@[i].0@ != #[trigger] self.entries@[j].0@
    }

    /// The value stored under `name`.
    pub open spec fn value_of(self, name: Seq<char>) -> Option<T> {
        match index_from(self.entries@, name, 0) {
            Some(k) => Some(self.entries@[k].1),
            None => None,
        }
    }

    /// An empty table.
    pub fn new() -> (r: Table<T>)
        ensures
            r.wf(),
            r.entries@.len() == 0,
            forall|n: Seq<char>| r.value_of(n) is None,
    {
        Table { entries: Vec::new() }
    }

    /// Index of the entry whose key is `name`.
    pub fn index(&self, name: &str) -> (r: Option<usize>)
        ensures
            r is Some <==> index_from(self.entries@, name@, 0) is Some,
            r matches Some(k) ==> index_from(self.entries@, name@, 0) == Some(k as int) && k
                < self.entries@.len(),
    {
        let mut k: usize = 0;
        while k < self.entries.len()
            invariant
                k <= self.entries@.len(),
                index_from(self.entries@, name@, k as int) == index_from(self.entries@, name@, 0),
            decreases self.entries@.len() - k,
        {
            if str_eq(self.entries[k].0.as_str(), name) {
                return Some(k);
            }
            k = k + 1;
        }
        None
    }

    /// The value stored under `name`.
    pub fn get(&self, name: &str) -> (r: Option<&T>)
        ensures
            match self.value_of(name@) {
                Some(v) => r is Some && *r->0 == v,
                None => r is None,
            },
    {
        match self.index(name) {
            Some(k) => Some(&self.entries[k].1),
            None => None,
        }
    }

    /// Stores `value` under `name`, replacing what was stored there.
    pub fn insert(&mut self, name: &str, value: T)
        requires
            old(self).wf(),
        ensures
            final(self).wf(),
            final(self).value_of(name@) == Some(value),
            forall|n: Seq<char>| n != name@ ==> final(self).value_of(n) == old(self).value_of(n),
            final(self).entries@.len() == old(self).entries@.len() + (if old(self).value_of(name@) is Some {
                0int
            } else {
                1int
            }),
    {
        let ghost before = self.entries@;
        match self.index(name) {
            Some(k) => {
                let key = name.to_owned();
                proof {
                    lemma_index_from(before, name@, 0);
                }
                self.entries.set(k, (key, value));
                proof {
                    assert(forall|i: int| 0 <= i < before.len() ==> self.entries@[i].0@ == before[i].0@);
                    assert forall|n: Seq<char>| #![auto] true implies index_from(self.entries@, n, 0) == index_from(before, n, 0) by {
                        lemma_index_same_keys(self.entries@, before, n, 0);
                        lemma_index_from(before, n, 0);
                    }
                    lemma_index_same_keys(self.entries@, before, name@, 0);
                    assert forall|n: Seq<char>| n != name@ implies #[trigger] self.value_of(n) == old(self).value_of(n) by {
                        lemma_index_same_keys(self.entries@, before, n, 0);
                        lemma_index_from(before, n, 0);
                        lemma_index_from(before, name@, 0);
                    }
                }
            },
            None => {
                let key = name.to_owned();
                self.entries.push((key, value));
                proof {
                    lemma_index_from(before, name@, 0);
                    assert(before.push(self.entries@.last()) == self.entries@);
                    assert forall|n: Seq<char>| #![auto] n != name@ implies index_from(self.entries@, n, 0) == index_from(before, n, 0) by {
                        lemma_index_push(before, self.entries@.last(), n, 0);
                        lemma_index_from(before, n, 0);
                    }
                    lemma_index_from(self.entries@, name@, 0);
                    assert(index_from(self.entries@, name@, 0) == Some(before.len() as int));
                    assert forall|n: Seq<char>| n != name@ implies #[trigger] self.value_of(n) == old(self).value_of(n) by {
                        lemma_index_push(before, self.entries@.last(), n, 0);
                        lemma_index_from(before, n, 0);
                    }
                }
            },
        }
    }

    /// Removes the entry stored under `name`, if any.
    pub fn remove(&mut self, name: &str)
        requires
            old(self).wf(),
        ensures
            final(self).wf(),
            final(self).value_of(name@) is None,
            forall|n: Seq<char>| n != name@ ==> final(self).value_of(n) == old(self).value_of(n),
    {
        let ghost before = self.entries@;
        match self.index(name) {
            Some(k) => {
                proof {
                    lemma_index_from(before, name@, 0);
                }
                self.entries.remove(k);
                proof {
                    let after = self.entries@;
                    assert forall|a: int, b: int| 0 <= a < b < after.len() implies #[trigger] after[a].0@
                        != #[trigger] after[b].0@ by {
                        let a0 = if a < k { a } else { a + 1 };
                        let b0 = if b < k { b } else { b + 1 };
                        assert(before[a0].0@ != before[b0].0@);
                    }
                    lemma_index_from(after, name@, 0);
                    if index_from(after, name@, 0) is Some {
                        let j = index_from(after, name@, 0)->0;
                        let j0 = if j < k { j } else { j + 1 };
                        assert(before[j0].0@ == name@);
                        assert(before[k as int].0@ == name@);
                    }
                    assert forall|n: Seq<char>| n != name@ implies #[trigger] self.value_of(n) == old(self).value_of(n) by {
                        lemma_index_from(before, n, 0);
                        lemma_index_from(after, n, 0);
                        match index_from(before, n, 0) {
                            Some(i) => {
                                let j = if i < k { i } else { i - 1 };
                                assert(after[j] == before[i]);
                                lemma_index_unique(after, n, j);
                            },
                            None => {
                                if index_from(after, n, 0) is Some {
                                    let j = index_from(after, n, 0)->0;
                                    let j0 = if j < k { j } else { j + 1 };
                                    assert(before[j0].0@ == n);
                                }
                            },
                        }
                    }
                }
            },
            None => {},
        }
    }

    /// Removes every entry.
    pub fn clear(&mut self)
        ensures
            final(self).wf(),
            final(self).entries@.len() == 0,
            forall|n: Seq<char>| final(self).value_of(n) is None,
    {
        self.entries = Vec::new();
    }

    /// Number of entries.
    pub fn len(&self) -> (r: usize)
        ensures
            r == self.entries@.len(),
    {
        self.entries.len()
    }

    /// True when there is no entry.
    pub fn is_empty(&self) -> (r: bool)
        ensures
            r == (self.entries@.len() == 0),
    {
        self.entries.len() == 0
    }
}

} // verus!
