//! Reading a `defines` table out of the shipped API documentation, or out of
//! a probe's dump.

use vstd::prelude::*;
use crate::json::{jget, lemma_object_view, put, views_of, Json, JsonView};
use crate::strmap::StrMap;
use crate::text;

verus! {

/// Each value's name mapped to its `order`, a later value of the same name
/// winning. A value missing either is skipped.
pub open spec fn define_values(vs: Seq<JsonView>) -> Map<Seq<char>, JsonView>
    decreases vs.len(),
{
    if vs.len() == 0 {
        Map::empty()
    } else {
        let m = define_values(vs.drop_last());
        match (jget(vs.last(), "name"@), jget(vs.last(), "order"@)) {
            (Some(JsonView::Str(n)), Some(o)) => m.insert(n, o),
            _ => m,
        }
    }
}

/// The `k`th value is named `n` and has an order.
pub open spec fn value_named(vs: Seq<JsonView>, k: int, n: Seq<char>) -> bool {
    0 <= k < vs.len() && jget(vs[k], "name"@) == Some(JsonView::Str(n)) && jget(vs[k], "order"@) is Some
}

proof fn lemma_values_domain(vs: Seq<JsonView>, n: Seq<char>)
    ensures
        define_values(vs).dom().contains(n) <==> exists|k: int| #[trigger] value_named(vs, k, n),
    decreases vs.len(),
{
    if vs.len() > 0 {
        let v0 = vs.drop_last();
        let last = vs.len() - 1;
        lemma_values_domain(v0, n);
        assert(vs.last() == vs[last]);
        assert(vs.drop_last() == v0);
        if value_named(vs, last, n) {
            assert(define_values(vs).dom().contains(n));
        }
        if exists|k: int| #[trigger] value_named(vs, k, n) {
            let k = choose|k: int| #[trigger] value_named(vs, k, n);
            if k < last {
                assert(v0[k] == vs[k]);
                assert(value_named(v0, k, n));
            }
        }
        if exists|k: int| #[trigger] value_named(v0, k, n) {
            let k = choose|k: int| #[trigger] value_named(v0, k, n);
            assert(v0[k] == vs[k]);
            assert(value_named(vs, k, n));
        }
    }
}

proof fn lemma_values_last(vs: Seq<JsonView>, n: Seq<char>, k: int)
    requires
        value_named(vs, k, n),
        forall|l: int| k < l < vs.len() ==> !#[trigger] value_named(vs, l, n),
    ensures
        define_values(vs)[n] == jget(vs[k], "order"@)->0,
    decreases vs.len(),
{
    let v0 = vs.drop_last();
    let last = vs.len() - 1;
    assert(vs.last() == vs[last]);
    if k < last {
        assert(v0[k] == vs[k]);
        assert(value_named(v0, k, n));
        assert forall|l: int| k < l < v0.len() implies !#[trigger] value_named(v0, l, n) by {
            assert(v0[l] == vs[l]);
            assert(!value_named(vs, l, n));
        }
        lemma_values_last(v0, n, k);
        assert(!value_named(vs, last, n));
    }
}

/// A table's values read as a map: a name is in it exactly when some value
/// carries that name and an order, and it maps to the order of the last such
/// value.
pub proof fn law_each_name_maps_to_its_last_order(vs: Seq<JsonView>, n: Seq<char>)
    ensures
        define_values(vs).dom().contains(n) <==> exists|k: int| #[trigger] value_named(vs, k, n),
        forall|k: int|
            #[trigger] value_named(vs, k, n) && (forall|l: int| k < l < vs.len() ==> !value_named(vs, l, n))
                ==> define_values(vs)[n] == jget(vs[k], "order"@)->0,
{
    lemma_values_domain(vs, n);
    assert forall|k: int|
        #[trigger] value_named(vs, k, n) && (forall|l: int| k < l < vs.len() ==> !value_named(vs, l, n))
            implies define_values(vs)[n] == jget(vs[k], "order"@)->0 by {
        lemma_values_last(vs, n, k);
    }
}

/// Whether `d` is the table called `table`.
pub open spec fn names_table(d: JsonView, table: Seq<char>) -> bool {
    jget(d, "name"@) == Some(JsonView::Str(table))
}

/// The first table called `table`.
pub open spec fn first_table(ds: Seq<JsonView>, table: Seq<char>) -> Option<int>
    decreases ds.len(),
{
    if ds.len() == 0 {
        None
    } else if names_table(ds[0], table) {
        Some(0)
    } else {
        match first_table(ds.drop_first(), table) {
            Some(i) => Some(i + 1),
            None => None,
        }
    }
}

proof fn lemma_first_table(ds: Seq<JsonView>, table: Seq<char>, k: int)
    requires
        0 <= k <= ds.len(),
        forall|j: int| 0 <= j < k ==> !names_table(#[trigger] ds[j], table),
    ensures
        k < ds.len() && names_table(ds[k], table) ==> first_table(ds, table) == Some(k),
        k == ds.len() ==> first_table(ds, table) is None,
    decreases ds.len(),
{
    if ds.len() > 0 && k > 0 {
        let d = ds.drop_first();
        assert(!names_table(ds[0], table));
        assert forall|j: int| 0 <= j < k - 1 implies !names_table(#[trigger] d[j], table) by {
            assert(d[j] == ds[j + 1]);
        }
        lemma_first_table(d, table, k - 1);
        if k < ds.len() {
            assert(d[k - 1] == ds[k]);
        }
    }
}

/// The values a table lists: its `values` array, or nothing.
pub open spec fn values_of(d: JsonView) -> Seq<JsonView> {
    match jget(d, "values"@) {
        Some(JsonView::Array(vs)) => vs,
        _ => Seq::empty(),
    }
}

proof fn lemma_first_table_found(ds: Seq<JsonView>, table: Seq<char>)
    ensures
        match first_table(ds, table) {
            Some(i) => 0 <= i < ds.len() && jget(ds[i], "name"@) == Some(JsonView::Str(table)) && forall|j: int|
                0 <= j < i ==> jget(#[trigger] ds[j], "name"@) != Some(JsonView::Str(table)),
            None => forall|j: int| 0 <= j < ds.len() ==> jget(#[trigger] ds[j], "name"@) != Some(JsonView::Str(table)),
        },
    decreases ds.len(),
{
    if ds.len() > 0 && !names_table(ds[0], table) {
        let d = ds.drop_first();
        lemma_first_table_found(d, table);
        assert forall|j: int| 1 <= j < ds.len() implies ds[j] == d[j - 1] by {}
        match first_table(d, table) {
            Some(i) => {
                assert(ds[i + 1] == d[i]);
                assert forall|j: int| 0 <= j < i + 1 implies jget(#[trigger] ds[j], "name"@) != Some(
                    JsonView::Str(table),
                ) by {
                    if j > 0 {
                        assert(ds[j] == d[j - 1]);
                    }
                }
            },
            None => {
                assert forall|j: int| 0 <= j < ds.len() implies jget(#[trigger] ds[j], "name"@) != Some(
                    JsonView::Str(table),
                ) by {
                    if j > 0 {
                        assert(ds[j] == d[j - 1]);
                    }
                }
            },
        }
    }
}

/// What reading table `table` out of the API document `api`, found at
/// `path`, gives.
pub open spec fn collect_define_spec(api: JsonView, path: Seq<char>, table: Seq<char>) -> Result<
    JsonView,
    Seq<char>,
> {
    match jget(api, "defines"@) {
        Some(JsonView::Array(ds)) => match first_table(ds, table) {
            Some(i) => Ok(JsonView::Object(define_values(values_of(ds[i])))),
            None => Err("could not find defines."@ + table + " in "@ + path),
        },
        _ => Err(path + " has no defines array"@),
    }
}

/// The document has a `defines` list with a table named `table` in it.
pub open spec fn has_table(api: JsonView, table: Seq<char>) -> bool {
    match jget(api, "defines"@) {
        Some(JsonView::Array(ds)) => exists|i: int|
            0 <= i < ds.len() && jget(#[trigger] ds[i], "name"@) == Some(JsonView::Str(table)),
        _ => false,
    }
}

/// `r` is built from the values of the first table named `table` in the
/// document's `defines` list.
pub open spec fn read_from_table(api: JsonView, table: Seq<char>, r: JsonView) -> bool {
    match jget(api, "defines"@) {
        Some(JsonView::Array(ds)) => exists|i: int|
            0 <= i < ds.len() && jget(#[trigger] ds[i], "name"@) == Some(JsonView::Str(table)) && r
                == JsonView::Object(define_values(values_of(ds[i]))) && forall|j: int|
                0 <= j < i ==> jget(#[trigger] ds[j], "name"@) != Some(JsonView::Str(table)),
        _ => false,
    }
}

/// Reading a table reads the table of that name and no other: the result is
/// `Ok` exactly when the document has a `defines` list and some table in it
/// is named `table`, and then it is built from the values of the first
/// table so named; every table before it has another name.
pub proof fn law_the_table_asked_for_is_read(api: JsonView, path: Seq<char>, table: Seq<char>)
    ensures
        (collect_define_spec(api, path, table) is Ok) <==> has_table(api, table),
        forall|r: JsonView| #[trigger] read_from_table(api, table, r) <== collect_define_spec(api, path, table) == Ok::<
            JsonView,
            Seq<char>,
        >(r),
{
    match jget(api, "defines"@) {
        Some(JsonView::Array(ds)) => {
            lemma_first_table_found(ds, table);
        },
        _ => {},
    }
}

/// Reads one `defines` table out of an install's `runtime-api.json`.
///
/// This reads `order`, and `order` is not the value: the document publishes a
/// dense documentation index, not the numbers. It is right today only because
/// Factorio declares directions clockwise from `north = 0` with no gaps.
/// `defines_from_probe` reads the real values from the running game.
///
/// `path` is where `api` was read from, for the messages.
pub fn collect_define(api: &Json, path: &str, table: &str) -> (r: Result<Json, String>)
    ensures
        match (r, collect_define_spec(api.jv(), path@, table@)) {
            (Ok(v), Ok(w)) => v.jv() == w,
            (Err(m), Err(w)) => m@ == w,
            _ => false,
        },
{
    let defines = match api.get("defines") {
        Some(Json::Array(ds)) => ds,
        _ => {
            let mut v = text::chars_of(path);
            text::push_str(&mut v, " has no defines array");
            return Err(text::string_of(&v));
        },
    };
    let ghost dsv = api.jv()->Object_0["defines"@]->Array_0;
    assert(dsv.len() == defines.len());
    assert(jget(api.jv(), "defines"@) == Some(JsonView::Array(dsv)));
    let want = text::chars_of(table);
    let mut i: usize = 0;
    while i < defines.len()
        invariant
            i <= defines.len(),
            want@ == table@,
            dsv.len() == defines.len(),
            jget(api.jv(), "defines"@) == Some(JsonView::Array(dsv)),
            forall|j: int| 0 <= j < defines.len() ==> dsv[j] == (#[trigger] defines@[j]).jv(),
            forall|j: int| 0 <= j < i ==> !names_table(#[trigger] dsv[j], table@),
        decreases defines.len() - i,
    {
        let d = &defines[i];
        assert(dsv[i as int] == d.jv());
        let is_table = match d.get("name") {
            Some(Json::Str(n)) => {
                let nc = text::chars_of_string(n);
                text::chars_eq(&nc, &want)
            },
            _ => false,
        };
        if is_table {
            proof {
                assert(names_table(dsv[i as int], table@));
                lemma_first_table(dsv, table@, i as int);
                assert(first_table(dsv, table@) == Some(i as int));
                assert(jget(api.jv(), "defines"@) == Some(JsonView::Array(dsv)));
            }
            let mut out: StrMap<Json> = StrMap::new();
            proof {
                assert(views_of(out.view_map()) =~= Map::<Seq<char>, JsonView>::empty());
            }
            match d.get("values") {
                Some(Json::Array(vs)) => {
                    let ghost vsv = d.jv()->Object_0["values"@]->Array_0;
                    let mut k: usize = 0;
                    while k < vs.len()
                        invariant
                            k <= vs.len(),
                            out.wf(),
                            vsv.len() == vs.len(),
                            forall|j: int| 0 <= j < vs.len() ==> vsv[j] == (#[trigger] vs@[j]).jv(),
                            views_of(out.view_map()) == define_values(vsv.take(k as int)),
                        decreases vs.len() - k,
                    {
                        let ghost t1 = vsv.take(k + 1);
                        assert(t1.drop_last() =~= vsv.take(k as int));
                        assert(t1.last() == vs@[k as int].jv());
                        let v = &vs[k];
                        match (v.get("name"), v.get("order")) {
                            (Some(Json::Str(n)), Some(o)) => {
                                let c = o.copy();
                                put(&mut out, n.clone(), c);
                            },
                            _ => {},
                        }
                        k = k + 1;
                    }
                    assert(vsv.take(vs.len() as int) =~= vsv);
                    assert(values_of(dsv[i as int]) == vsv);
                },
                _ => {
                    assert(values_of(dsv[i as int]) =~= Seq::<JsonView>::empty());
                    assert(define_values(Seq::<JsonView>::empty()) =~= Map::<Seq<char>, JsonView>::empty());
                },
            }
            assert(views_of(out.view_map()) == define_values(values_of(dsv[i as int])));
            proof {
                lemma_object_view(out);
            }
            return Ok(Json::Object(out));
        }
        i = i + 1;
    }
    proof {
        lemma_first_table(dsv, table@, i as int);
    }
    let mut v = text::chars_of("could not find defines.");
    text::push_str(&mut v, table);
    text::push_str(&mut v, " in ");
    text::push_str(&mut v, path);
    Err(text::string_of(&v))
}

/// What reading table `key` out of a probe's dump gives.
pub open spec fn defines_from_probe_spec(dump: JsonView, key: Seq<char>) -> Result<JsonView, Seq<char>> {
    match jget(dump, key) {
        Some(t) => if t is Object {
            Ok(t)
        } else {
            Err("the probe dump's `"@ + key + "` is not an object"@)
        },
        None => Err("the probe dump has no `"@ + key + "` table"@),
    }
}

/// Reads a defines table out of a probe mod's dump.
///
/// This is the sound way to answer "what number means east": it reads the
/// running game, which is the only authority. The probe writes the table under
/// a key of its own choosing, so the caller names it.
pub fn defines_from_probe(probe_dump: &Json, key: &str) -> (r: Result<Json, String>)
    ensures
        match (r, defines_from_probe_spec(probe_dump.jv(), key@)) {
            (Ok(v), Ok(w)) => v.jv() == w,
            (Err(m), Err(w)) => m@ == w,
            _ => false,
        },
{
    match probe_dump.get(key) {
        Some(t) => match t {
            Json::Object(_) => Ok(t.copy()),
            _ => {
                let mut v = text::chars_of("the probe dump's `");
                text::push_str(&mut v, key);
                text::push_str(&mut v, "` is not an object");
                Err(text::string_of(&v))
            },
        },
        None => {
            let mut v = text::chars_of("the probe dump has no `");
            text::push_str(&mut v, key);
            text::push_str(&mut v, "` table");
            Err(text::string_of(&v))
        },
    }
}

} // verus!
