//! A map from text keys to values, kept in key order.
//!
//! Several inputs of this library are maps keyed by a name whose iteration
//! order is part of the output: a probe's literals, a manifest's fixtures.
//! `StrMap` holds them as a vector of entries sorted strictly by key, so
//! iterating the entries is iterating the map in order.

use vstd::prelude::*;
use crate::text;

verus! {

/// The keys of a list of entries, as character sequences.
pub open spec fn keys_of<V>(e: Seq<(String, V)>) -> Seq<Seq<char>> {
    e.map_values(|p: (String, V)| p.0@)
}

/// Every key sorts strictly before every later key.
pub open spec fn strictly_sorted(k: Seq<Seq<char>>) -> bool {
    forall|i: int, j: int| 0 <= i < j < k.len() ==> text::lex_lt(k[i], k[j])
}

/// Where `k` sits among the entries, if it is there.
pub open spec fn key_index<V>(e: Seq<(String, V)>, k: Seq<char>) -> Option<int> {
    if exists|i: int| 0 <= i < e.len() && e[i].0@ == k {
        Some(choose|i: int| 0 <= i < e.len() && e[i].0@ == k)
    } else {
        None
    }
}

/// The entries, read as a map.
pub open spec fn map_of<V>(e: Seq<(String, V)>) -> Map<Seq<char>, V> {
    Map::new(|k: Seq<char>| key_index(e, k) is Some, |k: Seq<char>| e[key_index(e, k)->0].1)
}

/// In a strictly sorted list a key sits at one place only.
pub proof fn lemma_key_index_unique<V>(e: Seq<(String, V)>, i: int)
    requires
        strictly_sorted(keys_of(e)),
        0 <= i < e.len(),
    ensures
        key_index(e, e[i].0@) == Some(i),
{
    let k = e[i].0@;
    assert(keys_of(e)[i] == k);
    assert(exists|j: int| 0 <= j < e.len() && e[j].0@ == k);
    let c = key_index(e, k)->0;
    assert(0 <= c < e.len() && e[c].0@ == k);
    assert(keys_of(e)[c] == k);
    if c < i {
        assert(text::lex_lt(keys_of(e)[c], keys_of(e)[i]));
        text::lemma_lex_irreflexive(k);
    } else if c > i {
        assert(text::lex_lt(keys_of(e)[i], keys_of(e)[c]));
        text::lemma_lex_irreflexive(k);
    }
}

/// A map from text keys to values, iterated in key order.
#[derive(Debug, Clone, PartialEq, Eq)]
pub struct StrMap<V> {
    /// The entries, sorted strictly by key.
    pub entries: Vec<(String, V)>,
}

impl<V> StrMap<V> {
    /// The entries are sorted strictly by key.
    pub open spec fn wf(&self) -> bool {
        strictly_sorted(keys_of(self.entries@))
    }

    /// The map the entries describe.
    pub open spec fn view_map(&self) -> Map<Seq<char>, V> {
        map_of(self.entries@)
    }

    /// An empty map.
    pub fn new() -> (m: Self)
        ensures
            m.wf(),
            m.entries@.len() == 0,
            m.view_map() == Map::<Seq<char>, V>::empty(),
    {
        let m = StrMap { entries: Vec::new() };
        assert(m.view_map() =~= Map::<Seq<char>, V>::empty());
        m
    }

    /// How many keys the map holds.
    pub fn len(&self) -> (n: usize)
        ensures
            n == self.entries@.len(),
    {
        self.entries.len()
    }

    /// The value stored under `key`, if there is one.
    pub fn get(&self, key: &str) -> (r: Option<&V>)
        requires
            self.wf(),
        ensures
            (r is Some) == self.view_map().dom().contains(key@),
            r matches Some(v) ==> *v == self.view_map()[key@],
    {
        let k = text::chars_of(key);
        let mut i: usize = 0;
        while i < self.entries.len()
            invariant
                i <= self.entries.len(),
                k@ == key@,
                self.wf(),
                forall|j: int| 0 <= j < i ==> self.entries@[j].0@ != key@,
            decreases self.entries.len() - i,
        {
            let e = text::chars_of_string(&self.entries[i].0);
            if text::chars_eq(&e, &k) {
                proof {
                    lemma_key_index_unique(self.entries@, i as int);
                }
                return Some(&self.entries[i].1);
            }
            i = i + 1;
        }
        None
    }

    /// Adds `key`, or gives an existing `key` a new value, keeping the order.
    pub fn insert(&mut self, key: String, value: V)
        requires
            old(self).wf(),
        ensures
            final(self).wf(),
            final(self).view_map() == old(self).view_map().insert(key@, value),
    {
        let k = text::chars_of_string(&key);
        let ghost old_e = self.entries@;
        let mut i: usize = 0;
        while i < self.entries.len()
            invariant
                i <= self.entries.len(),
                self.entries@ == old_e,
                k@ == key@,
                forall|j: int| 0 <= j < i ==> text::lex_lt(#[trigger] keys_of(old_e)[j], key@),
            ensures
                i <= self.entries.len(),
                self.entries@ == old_e,
                forall|j: int| 0 <= j < i ==> text::lex_lt(#[trigger] keys_of(old_e)[j], key@),
                i < self.entries.len() ==> !text::lex_lt(keys_of(old_e)[i as int], key@),
            decreases self.entries.len() - i,
        {
            let e = text::chars_of_string(&self.entries[i].0);
            assert(keys_of(old_e)[i as int] == e@);
            if !text::lex_less(&e, &k) {
                break;
            }
            i = i + 1;
        }
        let ghost ks = keys_of(old_e);
        if i < self.entries.len() {
            let e = text::chars_of_string(&self.entries[i].0);
            assert(ks[i as int] == e@);
            if text::chars_eq(&e, &k) {
                self.entries.set(i, (key, value));
                proof {
                    assert(keys_of(self.entries@) =~= ks);
                    let ne = self.entries@;
                    assert forall|q: Seq<char>| #[trigger]
                        map_of(ne).dom().contains(q) == old(self).view_map().insert(
                            key@,
                            value,
                        ).dom().contains(q) by {
                        if exists|j: int| 0 <= j < ne.len() && ne[j].0@ == q {
                            let j = choose|j: int| 0 <= j < ne.len() && ne[j].0@ == q;
                            if j != i {
                                assert(old_e[j].0@ == q);
                            }
                        }
                        if exists|j: int| 0 <= j < old_e.len() && old_e[j].0@ == q {
                            let j = choose|j: int| 0 <= j < old_e.len() && old_e[j].0@ == q;
                            assert(ne[j].0@ == q);
                        }
                        assert(ne[i as int].0@ == key@);
                    }
                    assert forall|q: Seq<char>| #[trigger]
                        map_of(ne).dom().contains(q) implies map_of(ne)[q]
                        == old(self).view_map().insert(key@, value)[q] by {
                        let j = choose|j: int| 0 <= j < ne.len() && ne[j].0@ == q;
                        assert(keys_of(ne)[j] == q);
                        lemma_key_index_unique(ne, j);
                        if j != i {
                            assert(old_e[j].0@ == q);
                            assert(keys_of(old_e)[j] == q);
                            lemma_key_index_unique(old_e, j);
                            assert(ks[i as int] == key@);
                            if j < i {
                                assert(text::lex_lt(ks[j], ks[i as int]));
                            } else {
                                assert(text::lex_lt(ks[i as int], ks[j]));
                            }
                            text::lemma_lex_irreflexive(q);
                            assert(q != key@);
                        }
                    }
                    assert(map_of(ne) =~= old(self).view_map().insert(key@, value));
                }
                return;
            }
            proof {
                text::lemma_lex_total(e@, key@);
            }
        }
        self.entries.insert(i, (key, value));
        proof {
            let ne = self.entries@;
            assert(ne == old_e.insert(i as int, (key, value)));
            // Everything at or after `i` sorts after `key`.
            assert forall|j: int| i <= j < old_e.len() implies text::lex_lt(key@, ks[j]) by {
                text::lemma_lex_total(ks[i as int], key@);
                if j > i {
                    assert(text::lex_lt(ks[i as int], ks[j]));
                    text::lemma_lex_transitive(key@, ks[i as int], ks[j]);
                }
            }
            assert(keys_of(ne) =~= ks.insert(i as int, key@));
            assert forall|a: int, b: int| 0 <= a < b < keys_of(ne).len() implies text::lex_lt(
                keys_of(ne)[a],
                keys_of(ne)[b],
            ) by {
                if a < i && b < i {
                } else if a < i && b == i {
                } else if a < i && b > i {
                    assert(text::lex_lt(ks[a], ks[b - 1]));
                } else if a == i {
                } else {
                    assert(text::lex_lt(ks[a - 1], ks[b - 1]));
                }
            }
            assert forall|q: Seq<char>| #[trigger]
                map_of(ne).dom().contains(q) == old(self).view_map().insert(
                    key@,
                    value,
                ).dom().contains(q) by {
                if exists|j: int| 0 <= j < ne.len() && ne[j].0@ == q {
                    let j = choose|j: int| 0 <= j < ne.len() && ne[j].0@ == q;
                    if j < i {
                        assert(old_e[j].0@ == q);
                    } else if j > i {
                        assert(old_e[j - 1].0@ == q);
                    }
                }
                if exists|j: int| 0 <= j < old_e.len() && old_e[j].0@ == q {
                    let j = choose|j: int| 0 <= j < old_e.len() && old_e[j].0@ == q;
                    if j < i {
                        assert(ne[j].0@ == q);
                    } else {
                        assert(ne[j + 1].0@ == q);
                    }
                }
                assert(ne[i as int].0@ == key@);
            }
            assert forall|q: Seq<char>| #[trigger]
                map_of(ne).dom().contains(q) implies map_of(ne)[q] == old(self).view_map().insert(
                key@,
                value,
            )[q] by {
                let j = choose|j: int| 0 <= j < ne.len() && ne[j].0@ == q;
                assert(keys_of(ne)[j] == q);
                lemma_key_index_unique(ne, j);
                if j < i {
                    assert(old_e[j].0@ == q);
                    assert(keys_of(old_e)[j] == q);
                    lemma_key_index_unique(old_e, j);
                    text::lemma_lex_irreflexive(q);
                } else if j > i {
                    assert(old_e[j - 1].0@ == q);
                    assert(keys_of(old_e)[j - 1] == q);
                    lemma_key_index_unique(old_e, j - 1);
                    text::lemma_lex_irreflexive(q);
                }
            }
            assert(map_of(ne) =~= old(self).view_map().insert(key@, value));
        }
    }
}

/// A key that was just inserted maps to the value it was given, and every
/// other key keeps its value.
pub proof fn law_insert_then_lookup<V>(m: Map<Seq<char>, V>, k: Seq<char>, v: V, q: Seq<char>)
    ensures
        m.insert(k, v)[k] == v,
        q != k ==> (m.insert(k, v).dom().contains(q) == m.dom().contains(q)),
        q != k && m.dom().contains(q) ==> m.insert(k, v)[q] == m[q],
{
}

} // verus!
