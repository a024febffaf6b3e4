//! A table keyed by strings, each key present at most once: the
//! configuration options and the registry of running REPLs are kept in it.

use vstd::prelude::*;

use crate::text::same_text;

verus! {

/// Entries keyed by text; no key occurs twice.
pub struct StrMap<V> {
    entries: Vec<(String, V)>,
}

impl<V> StrMap<V> {
    /// No two entries have the same key.
    #[verifier::type_invariant]
    closed spec fn keys_distinct(self) -> bool {
        forall|i: int, j: int|
            0 <= i < self.entries.len() && 0 <= j < self.entries.len() && i != j
                ==> #[trigger] self.entries@[i].0@ != #[trigger] self.entries@[j].0@
    }

    /// The entry that holds key `k`, if there is one.
    closed spec fn slot(self, k: Seq<char>) -> int {
        choose|i: int| 0 <= i < self.entries.len() && #[trigger] self.entries@[i].0@ == k
    }

    /// The table as a map from key to value.
    pub closed spec fn as_map(self) -> Map<Seq<char>, V> {
        Map::new(
            |k: Seq<char>| exists|i: int| 0 <= i < self.entries.len() && #[trigger] self.entries@[i].0@ == k,
            |k: Seq<char>| self.entries@[self.slot(k)].1,
        )
    }

    proof fn lemma_slot(self, i: int)
        requires
            self.keys_distinct(),
            0 <= i < self.entries.len(),
        ensures
            self.slot(self.entries@[i].0@) == i,
            self.as_map().contains_key(self.entries@[i].0@),
            self.as_map()[self.entries@[i].0@] == self.entries@[i].1,
    {
        let k = self.entries@[i].0@;
        assert(self.entries@[i].0@ == k);
        let j = self.slot(k);
        assert(0 <= j < self.entries.len() && self.entries@[j].0@ == k);
    }

    /// An empty table.
    pub fn new() -> (m: Self)
        ensures
            m@ == Map::<Seq<char>, V>::empty(),
    {
        let m = StrMap { entries: Vec::new() };
        assert(m@ =~= Map::<Seq<char>, V>::empty());
        m
    }

    /// Where key `key` stands, if it does.
    fn find(&self, key: &str) -> (out: Option<usize>)
        ensures
            out matches Some(i) ==> i < self.entries.len() && self.entries@[i as int].0@ == key@,
            out is None ==> !self@.contains_key(key@),
    {
        let mut i: usize = 0;
        while i < self.entries.len()
            invariant
                i <= self.entries.len(),
                forall|j: int| 0 <= j < i ==> #[trigger] self.entries@[j].0@ != key@,
            decreases self.entries.len() - i,
        {
            if same_text(self.entries[i].0.as_str(), key) {
                return Some(i);
            }
            i = i + 1;
        }
        None
    }

    /// The value under `key`, if there is one.
    pub fn get(&self, key: &str) -> (out: Option<&V>)
        ensures
            out matches Some(v) ==> self@.contains_key(key@) && *v == self@[key@],
            out is None ==> !self@.contains_key(key@),
    {
        proof {
            use_type_invariant(self);
        }
        match self.find(key) {
            Some(i) => {
                proof {
                    self.lemma_slot(i as int);
                }
                Some(&self.entries[i].1)
            },
            None => None,
        }
    }

    /// Whether `key` has a value.
    pub fn contains_key(&self, key: &str) -> (out: bool)
        ensures
            out == self@.contains_key(key@),
    {
        proof {
            use_type_invariant(self);
        }
        match self.find(key) {
            Some(i) => {
                proof {
                    self.lemma_slot(i as int);
                }
                true
            },
            None => false,
        }
    }

    /// Puts `value` under `key`, in place of any value that it had.
    pub fn insert(&mut self, key: String, value: V)
        ensures
            final(self)@ == old(self)@.insert(key@, value),
    {
        proof {
            use_type_invariant(&*self);
        }
        let ghost before = self@;
        let ghost k = key@;
        let mut entries = Vec::new();
        std::mem::swap(&mut entries, &mut self.entries);
        let old_map = StrMap { entries };
        proof {
            assert(old_map@ =~= before);
        }
        let found = old_map.find(key.as_str());
        let mut entries = old_map.entries;
        let ghost e0 = entries@;
        if let Some(i) = found {
            entries.remove(i);
            proof {
                assert forall|a: int, b: int|
                    0 <= a < entries.len() && 0 <= b < entries.len() && a != b
                        implies #[trigger] entries@[a].0@ != #[trigger] entries@[b].0@ by {
                    let a0 = if a < i { a } else { a + 1 };
                    let b0 = if b < i { b } else { b + 1 };
                    assert(entries@[a] == e0[a0]);
                    assert(entries@[b] == e0[b0]);
                }
                assert forall|a: int| 0 <= a < entries.len() implies #[trigger] entries@[a].0@ != k by {
                    let a0 = if a < i { a } else { a + 1 };
                    assert(entries@[a] == e0[a0]);
                    assert(e0[i as int].0@ == k);
                }
            }
        } else {
            proof {
                assert forall|a: int| 0 <= a < entries.len() implies #[trigger] entries@[a].0@ != k by {
                    if entries@[a].0@ == k {
                        assert(old_map@.contains_key(k));
                    }
                }
            }
        }
        let ghost e1 = entries@;
        entries.push((key, value));
        let result = StrMap { entries };
        proof {
            let n = result.entries.len() - 1;
            assert(result.entries@[n] == (key, value));
            assert forall|a: int| 0 <= a < n implies #[trigger] result.entries@[a] == e1[a] by {}
            assert(result.keys_distinct());
            result.lemma_slot(n);
            assert forall|q: Seq<char>| #[trigger] result@.contains_key(q) == before.insert(k, value).contains_key(q) by {
                if q != k {
                    if result@.contains_key(q) {
                        let a = choose|a: int| 0 <= a < result.entries.len() && #[trigger] result.entries@[a].0@ == q;
                        assert(a != n);
                        let a0 = if found is Some && a >= found->0 { a + 1 } else { a };
                        assert(e0[a0] == result.entries@[a]);
                        assert(old_map.entries@[a0].0@ == q);
                    }
                    if before.contains_key(q) {
                        let a0 = choose|a: int| 0 <= a < old_map.entries.len() && #[trigger] old_map.entries@[a].0@ == q;
                        if let Some(i) = found {
                            assert(a0 != i);
                            let a = if a0 < i { a0 } else { a0 - 1 };
                            assert(result.entries@[a] == e0[a0]);
                        } else {
                            assert(result.entries@[a0] == e0[a0]);
                        }
                    }
                }
            }
            assert forall|q: Seq<char>| #[trigger] result@.contains_key(q) && q != k implies result@[q] == before[q] by {
                let a = choose|a: int| 0 <= a < result.entries.len() && #[trigger] result.entries@[a].0@ == q;
                result.lemma_slot(a);
                assert(a != n);
                let a0 = if found is Some && a >= found->0 { a + 1 } else { a };
                assert(e0[a0] == result.entries@[a]);
                old_map.lemma_slot(a0);
            }
            assert(result@ =~= before.insert(k, value));
        }
        *self = result;
    }

    /// Takes the value under `key` out of the table, if there is one.
    pub fn remove(&mut self, key: &str) -> (out: Option<V>)
        ensures
            final(self)@ == old(self)@.remove(key@),
            out matches Some(v) ==> old(self)@.contains_key(key@) && v == old(self)@[key@],
            out is None ==> !old(self)@.contains_key(key@),
    {
        proof {
            use_type_invariant(&*self);
        }
        let ghost before = self@;
        let ghost k = key@;
        let mut entries = Vec::new();
        std::mem::swap(&mut entries, &mut self.entries);
        let old_map = StrMap { entries };
        proof {
            assert(old_map@ =~= before);
        }
        match old_map.find(key) {
            None => {
                proof {
                    assert(old_map@.remove(k) =~= before);
                }
                *self = old_map;
                None
            },
            Some(i) => {
                proof {
                    old_map.lemma_slot(i as int);
                }
                let mut entries = old_map.entries;
                let ghost e0 = entries@;
                let (_, v) = entries.remove(i);
                proof {
                    assert forall|a: int, b: int|
                        0 <= a < entries.len() && 0 <= b < entries.len() && a != b
                            implies #[trigger] entries@[a].0@ != #[trigger] entries@[b].0@ by {
                        let a0 = if a < i { a } else { a + 1 };
                        let b0 = if b < i { b } else { b + 1 };
                        assert(entries@[a] == e0[a0]);
                        assert(entries@[b] == e0[b0]);
                    }
                }
                let result = StrMap { entries };
                proof {
                    assert forall|q: Seq<char>| #[trigger] result@.contains_key(q) == before.remove(k).contains_key(q) by {
                        if result@.contains_key(q) {
                            let a = choose|a: int| 0 <= a < result.entries.len() && #[trigger] result.entries@[a].0@ == q;
                            let a0 = if a < i { a } else { a + 1 };
                            assert(e0[a0] == result.entries@[a]);
                            assert(old_map.entries@[a0].0@ == q);
                            assert(a0 != i);
                            assert(q != k);
                        }
                        if before.remove(k).contains_key(q) {
                            let a0 = choose|a: int| 0 <= a < old_map.entries.len() && #[trigger] old_map.entries@[a].0@ == q;
                            assert(a0 != i);
                            let a = if a0 < i { a0 } else { a0 - 1 };
                            assert(result.entries@[a] == e0[a0]);
                        }
                    }
                    assert forall|q: Seq<char>| #[trigger] result@.contains_key(q) implies result@[q] == before[q] by {
                        let a = choose|a: int| 0 <= a < result.entries.len() && #[trigger] result.entries@[a].0@ == q;
                        result.lemma_slot(a);
                        let a0 = if a < i { a } else { a + 1 };
                        assert(e0[a0] == result.entries@[a]);
                        old_map.lemma_slot(a0);
                    }
                    assert(result@ =~= before.remove(k));
                }
                *self = result;
                Some(v)
            },
        }
    }

    /// The keys of the table, each once, in the order the table holds them.
    pub fn keys(&self) -> (out: Vec<String>)
        ensures
            forall|i: int, j: int|
                0 <= i < out.len() && 0 <= j < out.len() && i != j ==> #[trigger] out@[i]@ != #[trigger] out@[j]@,
            forall|i: int| 0 <= i < out.len() ==> self@.contains_key(#[trigger] out@[i]@),
            forall|k: Seq<char>| self@.contains_key(k) ==> exists|i: int| 0 <= i < out.len() && #[trigger] out@[i]@ == k,
    {
        proof {
            use_type_invariant(self);
        }
        let mut out: Vec<String> = Vec::new();
        let mut i: usize = 0;
        while i < self.entries.len()
            invariant
                self.keys_distinct(),
                i <= self.entries.len(),
                out.len() == i,
                forall|j: int| 0 <= j < i ==> #[trigger] out@[j]@ == self.entries@[j].0@,
            decreases self.entries.len() - i,
        {
            out.push(self.entries[i].0.clone());
            i = i + 1;
        }
        proof {
            assert forall|a: int, b: int|
                0 <= a < out.len() && 0 <= b < out.len() && a != b implies #[trigger] out@[a]@ != #[trigger] out@[b]@ by {
                assert(out@[a]@ == self.entries@[a].0@);
                assert(out@[b]@ == self.entries@[b].0@);
            }
            assert forall|a: int| 0 <= a < out.len() implies self@.contains_key(#[trigger] out@[a]@) by {
                self.lemma_slot(a);
            }
            assert forall|k: Seq<char>| self@.contains_key(k) implies exists|a: int| 0 <= a < out.len() && #[trigger] out@[a]@ == k by {
                let a = choose|a: int| 0 <= a < self.entries.len() && #[trigger] self.entries@[a].0@ == k;
                assert(out@[a]@ == k);
            }
        }
        out
    }

    /// How many keys the table holds.
    pub fn len(&self) -> (n: usize)
        ensures
            n == self@.dom().len(),
    {
        proof {
            use_type_invariant(self);
            self.lemma_len();
        }
        self.entries.len()
    }

    proof fn lemma_len(self)
        requires
            self.keys_distinct(),
        ensures
            self@.dom().len() == self.entries.len(),
            self@.dom().finite(),
        decreases self.entries.len(),
    {
        let keys = Seq::new(self.entries.len() as nat, |i: int| self.entries@[i].0@);
        assert forall|i: int, j: int| 0 <= i < keys.len() && 0 <= j < keys.len() && i != j implies keys[i] != keys[j] by {
            assert(keys[i] == self.entries@[i].0@);
            assert(keys[j] == self.entries@[j].0@);
        }
        assert(keys.no_duplicates());
        assert(self@.dom() =~= keys.to_set()) by {
            assert forall|k: Seq<char>| self@.dom().contains(k) implies keys.to_set().contains(k) by {
                let a = choose|a: int| 0 <= a < self.entries.len() && #[trigger] self.entries@[a].0@ == k;
                assert(keys[a] == k);
            }
            assert forall|k: Seq<char>| keys.to_set().contains(k) implies self@.dom().contains(k) by {
                let a = choose|a: int| 0 <= a < keys.len() && keys[a] == k;
                assert(self.entries@[a].0@ == k);
            }
        }
        keys.unique_seq_to_set();
    }
}

impl<V> View for StrMap<V> {
    type V = Map<Seq<char>, V>;

    open spec fn view(&self) -> Map<Seq<char>, V> {
        self.as_map()
    }
}

/// Reading a key back right after writing it gives the written value; the
/// other keys keep theirs.
pub proof fn lemma_read_after_write<V>(before: Map<Seq<char>, V>, k: Seq<char>, v: V, q: Seq<char>)
    ensures
        before.insert(k, v).contains_key(k),
        before.insert(k, v)[k] == v,
        q != k ==> before.insert(k, v).contains_key(q) == before.contains_key(q),
        q != k && before.contains_key(q) ==> before.insert(k, v)[q] == before[q],
{
}

} // verus!
