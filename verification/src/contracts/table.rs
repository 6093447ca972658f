//! A table from string keys to values: the persistent map of a contract's
//! state, held in memory.
use vstd::prelude::*;

verus! {

/// The value the entries hold for `k`: the last entry with that key.
pub open spec fn lookup<V>(entries: Seq<(String, V)>, k: Seq<char>) -> Option<V>
    decreases entries.len(),
{
    if entries.len() == 0 {
        None
    } else if entries.last().0@ == k {
        Some(entries.last().1)
    } else {
        lookup(entries.drop_last(), k)
    }
}

/// Entries with distinct keys.
pub struct Table<V> {
    pub entries: Vec<(String, V)>,
}

proof fn lemma_lookup_found<V>(entries: Seq<(String, V)>, i: int, k: Seq<char>)
    requires
        0 <= i < entries.len(),
        entries[i].0@ == k,
        forall|a: int, b: int| 0 <= a < b < entries.len() ==> entries[a].0@ != entries[b].0@,
    ensures
        lookup(entries, k) == Some(entries[i].1),
    decreases entries.len(),
{
    if i < entries.len() - 1 {
        assert(entries.last().0@ != k) by {
            assert(entries[i].0@ != entries[entries.len() - 1].0@);
        }
        lemma_lookup_found(entries.drop_last(), i, k);
    }
}

proof fn lemma_lookup_absent<V>(entries: Seq<(String, V)>, k: Seq<char>)
    requires
        forall|i: int| 0 <= i < entries.len() ==> entries[i].0@ != k,
    ensures
        lookup(entries, k) is None,
    decreases entries.len(),
{
    if entries.len() > 0 {
        assert(entries[entries.len() - 1].0@ != k);
        lemma_lookup_absent(entries.drop_last(), k);
    }
}

proof fn lemma_lookup_some<V>(entries: Seq<(String, V)>, k: Seq<char>)
    requires
        lookup(entries, k) is Some,
    ensures
        exists|i: int| 0 <= i < entries.len() && entries[i].0@ == k,
    decreases entries.len(),
{
    if entries.last().0@ != k {
        lemma_lookup_some(entries.drop_last(), k);
        let i = choose|i: int| 0 <= i < entries.drop_last().len() && entries.drop_last()[i].0@ == k;
        assert(entries[i] == entries.drop_last()[i]);
    } else {
        assert(entries[entries.len() - 1].0@ == k);
    }
}

impl<V> Table<V> {
    /// No key occurs twice.
    pub open spec fn wf(&self) -> bool {
        forall|a: int, b: int| 0 <= a < b < self.entries@.len() ==> self.entries@[a].0@ != self.entries@[b].0@
    }

    /// The value held for `k`.
    pub open spec fn get_spec(&self, k: Seq<char>) -> Option<V> {
        lookup(self.entries@, k)
    }

    /// An empty table.
    pub fn new() -> (r: Table<V>)
        ensures
            r.wf(),
            forall|k: Seq<char>| r.get_spec(k) is None,
    {
        Table { entries: Vec::new() }
    }

    /// Where `key` is held.
    fn find(&self, key: &str) -> (r: Option<usize>)
        requires
            self.wf(),
        ensures
            match r {
                Some(i) => i < self.entries@.len() && self.entries@[i as int].0@ == key@ && self.get_spec(key@)
                    == Some(self.entries@[i as int].1),
                None => self.get_spec(key@) is None,
            },
    {
        let n = self.entries.len();
        for i in 0..n
            invariant
                n == self.entries@.len(),
                self.wf(),
                forall|j: int| 0 <= j < i ==> self.entries@[j].0@ != key@,
        {
            if crate::text::str_eq(self.entries[i].0.as_str(), key) {
                proof {
                    lemma_lookup_found(self.entries@, i as int, key@);
                }
                return Some(i);
            }
        }
        proof {
            lemma_lookup_absent(self.entries@, key@);
        }
        None
    }

    /// The value held for `key`.
    pub fn get(&self, key: &str) -> (r: Option<&V>)
        requires
            self.wf(),
        ensures
            match r {
                Some(v) => self.get_spec(key@) == Some(*v),
                None => self.get_spec(key@) is None,
            },
    {
        match self.find(key) {
            Some(i) => Some(&self.entries[i].1),
            None => None,
        }
    }

    /// Holds `value` for `key`, replacing what was held.
    pub fn insert(&mut self, key: &str, value: V)
        requires
            old(self).wf(),
        ensures
            final(self).wf(),
            forall|k: Seq<char>| #[trigger] final(self).get_spec(k) == if k == key@ {
                Some(value)
            } else {
                old(self).get_spec(k)
            },
    {
        let ghost old_entries = self.entries@;
        match self.find(key) {
            Some(i) => {
                let k = self.entries[i].0.clone();
                self.entries.set(i, (k, value));
                let ghost e = self.entries@;
                assert(self.wf()) by {
                    assert forall|a: int, b: int| 0 <= a < b < e.len() implies e[a].0@ != e[b].0@ by {
                        assert(old_entries[a].0@ != old_entries[b].0@);
                    }
                }
                assert forall|k2: Seq<char>| #[trigger] self.get_spec(k2) == if k2 == key@ {
                    Some(value)
                } else {
                    old(self).get_spec(k2)
                } by {
                    if k2 == key@ {
                        lemma_lookup_found(e, i as int, k2);
                    } else {
                        lemma_lookup_other_set(old_entries, i as int, (k, value), k2);
                    }
                }
            },
            None => {
                let ghost before = self.entries@;
                self.entries.push((String::from_str(key), value));
                let ghost e = self.entries@;
                assert(forall|j: int| 0 <= j < before.len() ==> before[j].0@ != key@) by {
                    assert forall|j: int| 0 <= j < before.len() implies before[j].0@ != key@ by {
                        if before[j].0@ == key@ {
                            lemma_lookup_found(before, j, key@);
                        }
                    }
                }
                assert(self.wf()) by {
                    assert forall|a: int, b: int| 0 <= a < b < e.len() implies e[a].0@ != e[b].0@ by {
                        if b < before.len() {
                            assert(before[a].0@ != before[b].0@);
                        } else {
                            assert(e[a] == before[a]);
                        }
                    }
                }
                assert forall|k2: Seq<char>| #[trigger] self.get_spec(k2) == if k2 == key@ {
                    Some(value)
                } else {
                    old(self).get_spec(k2)
                } by {
                    assert(e.drop_last() =~= before);
                }
            },
        }
    }

    /// Drops what is held for `key`, handing it back.
    pub fn remove(&mut self, key: &str) -> (r: Option<V>)
        requires
            old(self).wf(),
        ensures
            final(self).wf(),
            r == old(self).get_spec(key@),
            forall|k: Seq<char>| #[trigger] final(self).get_spec(k) == if k == key@ {
                None
            } else {
                old(self).get_spec(k)
            },
    {
        let ghost before = self.entries@;
        match self.find(key) {
            Some(i) => {
                let (_, v) = self.entries.remove(i);
                let ghost e = self.entries@;
                assert(e =~= before.remove(i as int));
                assert(self.wf()) by {
                    assert forall|a: int, b: int| 0 <= a < b < e.len() implies e[a].0@ != e[b].0@ by {
                        let a0 = if a < i { a } else { a + 1 };
                        let b0 = if b < i { b } else { b + 1 };
                        assert(e[a] == before[a0]);
                        assert(e[b] == before[b0]);
                        assert(before[a0].0@ != before[b0].0@);
                    }
                }
                assert forall|k2: Seq<char>| #[trigger] self.get_spec(k2) == if k2 == key@ {
                    None
                } else {
                    old(self).get_spec(k2)
                } by {
                    if k2 == key@ {
                        assert forall|j: int| 0 <= j < e.len() implies e[j].0@ != k2 by {
                            let j0 = if j < i { j } else { j + 1 };
                            assert(e[j] == before[j0]);
                            assert(before[j0].0@ != before[i as int].0@);
                        }
                        lemma_lookup_absent(e, k2);
                    } else {
                        lemma_lookup_other_remove(before, i as int, k2);
                    }
                }
                Some(v)
            },
            None => {
                proof {
                    assert forall|k2: Seq<char>| #[trigger] self.get_spec(k2) == if k2 == key@ {
                        None
                    } else {
                        old(self).get_spec(k2)
                    } by {}
                }
                None
            },
        }
    }
}

proof fn lemma_lookup_other_set<V>(entries: Seq<(String, V)>, i: int, x: (String, V), k: Seq<char>)
    requires
        0 <= i < entries.len(),
        x.0@ == entries[i].0@,
        k != x.0@,
    ensures
        lookup(entries.update(i, x), k) == lookup(entries, k),
    decreases entries.len(),
{
    let u = entries.update(i, x);
    if i == entries.len() - 1 {
        assert(u.drop_last() =~= entries.drop_last());
    } else {
        lemma_lookup_other_set(entries.drop_last(), i, x, k);
        assert(u.drop_last() =~= entries.drop_last().update(i, x));
    }
}

proof fn lemma_lookup_other_remove<V>(entries: Seq<(String, V)>, i: int, k: Seq<char>)
    requires
        0 <= i < entries.len(),
        k != entries[i].0@,
    ensures
        lookup(entries.remove(i), k) == lookup(entries, k),
    decreases entries.len(),
{
    let r = entries.remove(i);
    if i == entries.len() - 1 {
        assert(r =~= entries.drop_last());
    } else {
        lemma_lookup_other_remove(entries.drop_last(), i, k);
        assert(r.drop_last() =~= entries.drop_last().remove(i));
        assert(r.last() == entries.last());
    }
}

} // verus!
