//! JSON values, as the trimming logic reads and writes them.
//!
//! A number keeps the literal text it was written with, so nothing here ever
//! rounds one. An object is a list of entries; reading a key takes its first
//! entry, and an object this library builds is a map in key order, which is
//! the order it is written back out in.

use vstd::prelude::*;
use crate::strmap::{key_index, keys_of, lemma_key_index_unique, map_of, StrMap};
use crate::text;

verus! {

/// A JSON value.
#[derive(Debug)]
pub enum Json {
    Null,
    Bool(bool),
    /// A number, as the literal text it was written with.
    Number(String),
    Str(String),
    Array(Vec<Json>),
    Object(StrMap<Json>),
}

/// A JSON value as mathematics sees it: an object is a map from key to value.
pub enum JsonView {
    Null,
    Bool(bool),
    Number(Seq<char>),
    Str(Seq<char>),
    Array(Seq<JsonView>),
    Object(Map<Seq<char>, JsonView>),
}

/// The position of the first entry with key `k`, if there is one.
pub open spec fn first_index<V>(e: Seq<(String, V)>, k: Seq<char>) -> Option<int>
    decreases e.len(),
{
    if e.len() == 0 {
        None
    } else if e[0].0@ == k {
        Some(0)
    } else {
        match first_index(e.drop_first(), k) {
            Some(i) => Some(i + 1),
            None => None,
        }
    }
}

/// `first_index` finds the first entry with that key, and none is missed.
pub proof fn lemma_first_index<V>(e: Seq<(String, V)>, k: Seq<char>)
    ensures
        first_index(e, k) matches Some(i) ==> 0 <= i < e.len() && e[i].0@ == k && forall|j: int|
            0 <= j < i ==> e[j].0@ != k,
        first_index(e, k) is None ==> forall|j: int| 0 <= j < e.len() ==> e[j].0@ != k,
    decreases e.len(),
{
    if e.len() > 0 {
        lemma_first_index(e.drop_first(), k);
        assert forall|j: int| 1 <= j < e.len() implies e[j] == e.drop_first()[j - 1] by {}
    }
}

impl Json {
    /// The value, read mathematically.
    pub open spec fn jv(&self) -> JsonView
        decreases self,
    {
        match self {
            Json::Null => JsonView::Null,
            Json::Bool(b) => JsonView::Bool(*b),
            Json::Number(n) => JsonView::Number(n@),
            Json::Str(s) => JsonView::Str(s@),
            Json::Array(items) => JsonView::Array(
                Seq::new(
                    items@.len(),
                    |i: int|
                        if 0 <= i < items@.len() {
                            items@[i].jv()
                        } else {
                            JsonView::Null
                        },
                ),
            ),
            Json::Object(m) => JsonView::Object(
                Map::new(
                    |k: Seq<char>| first_index(m.entries@, k) is Some,
                    |k: Seq<char>|
                        {
                            let i = first_index(m.entries@, k)->0;
                            if 0 <= i < m.entries@.len() {
                                m.entries@[i].1.jv()
                            } else {
                                JsonView::Null
                            }
                        },
                ),
            ),
        }
    }
}

/// What reading key `k` of a value gives: the key's value when the value is
/// an object holding it, and nothing otherwise.
pub open spec fn jget(v: JsonView, k: Seq<char>) -> Option<JsonView> {
    match v {
        JsonView::Object(m) => if m.dom().contains(k) {
            Some(m[k])
        } else {
            None
        },
        _ => None,
    }
}

/// The values of a map of JSON values, read mathematically.
pub open spec fn views_of(m: Map<Seq<char>, Json>) -> Map<Seq<char>, JsonView> {
    m.map_values(|j: Json| j.jv())
}

/// An object in key order reads as its map.
pub proof fn lemma_object_view(m: StrMap<Json>)
    requires
        m.wf(),
    ensures
        Json::Object(m).jv() == JsonView::Object(views_of(m.view_map())),
{
    let e = m.entries@;
    let a = Json::Object(m).jv()->Object_0;
    let b = views_of(m.view_map());
    assert forall|k: Seq<char>| a.dom().contains(k) == b.dom().contains(k) by {
        lemma_first_index(e, k);
        if first_index(e, k) is Some {
            let i = first_index(e, k)->0;
            assert(e[i].0@ == k);
        }
        if map_of(e).dom().contains(k) {
            let j = choose|j: int| 0 <= j < e.len() && e[j].0@ == k;
            assert(e[j].0@ == k);
        }
    }
    assert forall|k: Seq<char>| #[trigger] a.dom().contains(k) implies a[k] == b[k] by {
        lemma_first_index(e, k);
        let i = first_index(e, k)->0;
        assert(keys_of(e)[i] == k);
        lemma_key_index_unique(e, i);
    }
    assert(a =~= b);
}

/// The first entry of `m` with key `k`, if there is one.
fn find_entry(m: &StrMap<Json>, k: &Vec<char>) -> (r: Option<usize>)
    ensures
        match r {
            Some(i) => first_index(m.entries@, k@) == Some(i as int),
            None => first_index(m.entries@, k@) is None,
        },
{
    let mut i: usize = 0;
    while i < m.entries.len()
        invariant
            i <= m.entries.len(),
            forall|j: int| 0 <= j < i ==> m.entries@[j].0@ != k@,
        decreases m.entries.len() - i,
    {
        let e = text::chars_of_string(&m.entries[i].0);
        if text::chars_eq(&e, k) {
            proof {
                lemma_first_index(m.entries@, k@);
                if first_index(m.entries@, k@) is None {
                    assert(m.entries@[i as int].0@ != k@);
                } else {
                    let f = first_index(m.entries@, k@)->0;
                    assert(!(f < i));
                    assert(!(f > i));
                }
            }
            return Some(i);
        }
        i = i + 1;
    }
    proof {
        lemma_first_index(m.entries@, k@);
        if first_index(m.entries@, k@) is Some {
            let f = first_index(m.entries@, k@)->0;
            assert(m.entries@[f].0@ == k@);
        }
    }
    None
}

impl Json {
    /// The value under key `key`, when this is an object that has one.
    pub fn get(&self, key: &str) -> (r: Option<&Json>)
        ensures
            match r {
                Some(v) => jget(self.jv(), key@) == Some(v.jv()),
                None => jget(self.jv(), key@) is None,
            },
    {
        match self {
            Json::Object(m) => {
                let k = text::chars_of(key);
                match find_entry(m, &k) {
                    Some(i) => {
                        proof {
                            lemma_first_index(m.entries@, key@);
                        }
                        Some(&m.entries[i].1)
                    },
                    None => None,
                }
            },
            _ => None,
        }
    }

    /// A copy of the value, all the way down.
    pub fn copy(&self) -> (r: Json)
        ensures
            r.jv() == self.jv(),
        decreases self,
    {
        match self {
            Json::Null => Json::Null,
            Json::Bool(b) => Json::Bool(*b),
            Json::Number(n) => Json::Number(n.clone()),
            Json::Str(s) => Json::Str(s.clone()),
            Json::Array(items) => {
                let mut out: Vec<Json> = Vec::new();
                let mut i: usize = 0;
                while i < items.len()
                    invariant
                        i <= items.len(),
                        out.len() == i,
                        *self matches Json::Array(its) && its == *items,
                        forall|j: int| 0 <= j < i ==> (#[trigger] out@[j]).jv() == items@[j].jv(),
                    decreases items.len() - i,
                {
                    proof {
                        vstd::std_specs::vec::axiom_vec_index_decreases(*items, i as int);
                        assert(decreases_to!(*self => self->Array_0));
                        assert(decreases_to!(*self => items[i as int]));
                    }
                    let c = items[i].copy();
                    out.push(c);
                    i = i + 1;
                }
                let r = Json::Array(out);
                assert(r.jv()->Array_0 =~= self.jv()->Array_0);
                r
            },
            Json::Object(m) => {
                let mut out: Vec<(String, Json)> = Vec::new();
                let mut i: usize = 0;
                while i < m.entries.len()
                    invariant
                        i <= m.entries.len(),
                        out.len() == i,
                        *self matches Json::Object(mm) && mm == *m,
                        forall|j: int|
                            0 <= j < i ==> (#[trigger] out@[j]).0@ == m.entries@[j].0@ && out@[j].1.jv()
                                == m.entries@[j].1.jv(),
                    decreases m.entries.len() - i,
                {
                    proof {
                        vstd::std_specs::vec::axiom_vec_index_decreases(m.entries, i as int);
                        assert(decreases_to!(*self => self->Object_0));
                        assert(decreases_to!(*m => m.entries));
                        assert(decreases_to!(m.entries[i as int] => m.entries[i as int].1));
                        assert(decreases_to!(*self => m.entries[i as int].1));
                    }
                    let v = m.entries[i].1.copy();
                    let k = m.entries[i].0.clone();
                    out.push((k, v));
                    i = i + 1;
                }
                let om = StrMap { entries: out };
                proof {
                    let a = m.entries@;
                    let b = om.entries@;
                    assert forall|k: Seq<char>| first_index(b, k) == first_index(a, k) by {
                        lemma_first_index(a, k);
                        lemma_first_index(b, k);
                        if first_index(a, k) is Some {
                            let f = first_index(a, k)->0;
                            assert(b[f].0@ == k);
                            if first_index(b, k) is Some {
                                let g = first_index(b, k)->0;
                                assert(a[g].0@ == k);
                            }
                        }
                        if first_index(b, k) is Some {
                            let g = first_index(b, k)->0;
                            assert(a[g].0@ == k);
                        }
                    }
                }
                let r = Json::Object(om);
                assert(r.jv()->Object_0 =~= self.jv()->Object_0);
                r
            },
        }
    }
}


/// Adding a value to a map of JSON values adds its reading to the map of
/// readings.
pub proof fn lemma_views_of_insert(m: Map<Seq<char>, Json>, k: Seq<char>, j: Json)
    ensures
        views_of(m.insert(k, j)) == views_of(m).insert(k, j.jv()),
{
    assert(views_of(m.insert(k, j)) =~= views_of(m).insert(k, j.jv()));
}

/// Adds `value` under `key` to an object being built, keeping its reading in
/// step.
pub fn put(m: &mut StrMap<Json>, key: String, value: Json)
    requires
        old(m).wf(),
    ensures
        final(m).wf(),
        views_of(final(m).view_map()) == views_of(old(m).view_map()).insert(key@, value.jv()),
{
    let ghost k = key@;
    let ghost v = value.jv();
    let ghost before = m.view_map();
    m.insert(key, value);
    proof {
        lemma_views_of_insert(before, k, value);
    }
}

} // verus!
