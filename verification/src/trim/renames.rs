//! Every rename the game knows about, taken from its own migration files.

use vstd::prelude::*;
use crate::json::{Json, JsonView};
use crate::sortedset;
use crate::sortedset::member;
use crate::strmap::StrMap;
use crate::text;

verus! {

/// One file found in a mod's `migrations` directory.
pub struct MigrationFile {
    /// The mod directory the file is in.
    pub mod_name: String,
    pub file_name: String,
    /// The file's contents, where they could be read and parsed as JSON.
    pub content: Option<Json>,
}

/// A rename: category, old name, new name.
pub type Rename = (Seq<char>, Seq<char>, Seq<char>);

/// Where a file sorts: by mod directory, then by file name.
pub type FileKey = (Seq<char>, Seq<char>);

/// The order files are applied in: by mod directory, then by file name.
pub open spec fn key_lt(a: FileKey, b: FileKey) -> bool {
    text::lex_lt(a.0, b.0) || (a.0 == b.0 && text::lex_lt(a.1, b.1))
}

/// The renames a list of pairs gives: each element that is a list of exactly
/// two strings, in order. Anything else is skipped.
pub open spec fn pairs_of(cat: Seq<char>, ps: Seq<JsonView>) -> Seq<Rename>
    decreases ps.len(),
{
    if ps.len() == 0 {
        Seq::empty()
    } else {
        let r = pairs_of(cat, ps.drop_last());
        match ps.last() {
            JsonView::Array(pp) => if pp.len() == 2 {
                match (pp[0], pp[1]) {
                    (JsonView::Str(a), JsonView::Str(b)) => r.push((cat, a, b)),
                    _ => r,
                }
            } else {
                r
            },
            _ => r,
        }
    }
}

/// The renames one category of a migration gives; nothing unless its value
/// is a list.
pub open spec fn category_renames(cat: Seq<char>, v: JsonView) -> Seq<Rename> {
    match v {
        JsonView::Array(ps) => pairs_of(cat, ps),
        _ => Seq::empty(),
    }
}

/// The renames of every category of a migration, in its order.
pub open spec fn entry_renames(e: Seq<(String, Json)>) -> Seq<Rename>
    decreases e.len(),
{
    if e.len() == 0 {
        Seq::empty()
    } else {
        entry_renames(e.drop_last()) + category_renames(e.last().0@, e.last().1.jv())
    }
}

/// The renames one file gives: nothing unless it is a `.json` file holding
/// an object. `.lua` migrations are code, not data.
pub open spec fn file_renames(f: MigrationFile) -> Seq<Rename> {
    if text::ends_with(f.file_name@, ".json"@) {
        match f.content {
            Some(Json::Object(m)) => entry_renames(m.entries@),
            _ => Seq::empty(),
        }
    } else {
        Seq::empty()
    }
}

/// The new name the last of `ts` renaming `from` in `cat` gives.
pub open spec fn last_to(ts: Seq<Rename>, cat: Seq<char>, from: Seq<char>) -> Option<Seq<char>>
    decreases ts.len(),
{
    if ts.len() == 0 {
        None
    } else if ts.last().0 == cat && ts.last().1 == from {
        Some(ts.last().2)
    } else {
        last_to(ts.drop_last(), cat, from)
    }
}

/// A rename so far, with the file it came from.
pub type Winner = Option<(Seq<char>, FileKey)>;

/// The rename so far `w`, after a file at `k` that renames to `to`: the file
/// wins unless it sorts before the one `w` came from.
pub open spec fn combine(w: Winner, to: Option<Seq<char>>, k: FileKey) -> Winner {
    match to {
        Some(t) => match w {
            Some((_, k0)) => if key_lt(k, k0) {
                w
            } else {
                Some((t, k))
            },
            None => Some((t, k)),
        },
        None => w,
    }
}

/// The key of a file.
pub open spec fn key_of(f: MigrationFile) -> FileKey {
    (f.mod_name@, f.file_name@)
}

/// Which rename of `from` in `cat` stands after the files: the one from the
/// file that sorts last, and the last of that file's; where two files sort
/// the same, the later one.
pub open spec fn winner(files: Seq<MigrationFile>, cat: Seq<char>, from: Seq<char>) -> Winner
    decreases files.len(),
{
    if files.len() == 0 {
        None
    } else {
        combine(
            winner(files.drop_last(), cat, from),
            last_to(file_renames(files.last()), cat, from),
            key_of(files.last()),
        )
    }
}

/// The new name a winner carries.
pub open spec fn new_name(w: Winner) -> Seq<char> {
    match w {
        Some((t, _)) => t,
        None => Seq::empty(),
    }
}

/// Every rename the files give: by category, each old name mapped to the
/// new name that stands.
pub open spec fn renames_spec(files: Seq<MigrationFile>) -> Map<Seq<char>, Map<Seq<char>, Seq<char>>> {
    Map::new(
        |c: Seq<char>| exists|f: Seq<char>| #[trigger] winner(files, c, f) is Some,
        |c: Seq<char>|
            Map::new(|f: Seq<char>| winner(files, c, f) is Some, |f: Seq<char>| new_name(winner(files, c, f))),
    )
}

proof fn lemma_key_lt_asymmetric(a: FileKey, b: FileKey)
    ensures
        !(key_lt(a, b) && key_lt(b, a)),
{
    text::lemma_lex_asymmetric(a.0, b.0);
    text::lemma_lex_asymmetric(a.1, b.1);
    text::lemma_lex_irreflexive(a.0);
}

/// A rename that stands came from one of the files.
proof fn lemma_winner_from_a_file(files: Seq<MigrationFile>, cat: Seq<char>, from: Seq<char>)
    ensures
        winner(files, cat, from) matches Some((t, k)) ==> exists|j: int|
            0 <= j < files.len() && last_to(file_renames(#[trigger] files[j]), cat, from) == Some(t) && k == key_of(
                files[j],
            ),
    decreases files.len(),
{
    if files.len() > 0 {
        let f0 = files.drop_last();
        lemma_winner_from_a_file(f0, cat, from);
        if winner(f0, cat, from) is Some && winner(files, cat, from) == winner(f0, cat, from) {
            let (t, k) = winner(f0, cat, from)->0;
            let j = choose|j: int|
                0 <= j < f0.len() && last_to(file_renames(#[trigger] f0[j]), cat, from) == Some(t) && k == key_of(f0[j]);
            assert(files[j] == f0[j]);
        } else if winner(files, cat, from) is Some {
            assert(files[files.len() - 1] == files.last());
        }
    }
}

proof fn lemma_last_file_wins(files: Seq<MigrationFile>, cat: Seq<char>, from: Seq<char>, i: int)
    requires
        0 <= i < files.len(),
        last_to(file_renames(files[i]), cat, from) is Some,
        forall|j: int|
            0 <= j < files.len() && j != i && (last_to(file_renames(#[trigger] files[j]), cat, from) is Some)
                ==> key_lt(key_of(files[j]), key_of(files[i])),
    ensures
        winner(files, cat, from) == Some((last_to(file_renames(files[i]), cat, from)->0, key_of(files[i]))),
    decreases files.len(),
{
    let f0 = files.drop_last();
    let n = files.len() - 1;
    assert(files.last() == files[n]);
    if i == n {
        lemma_winner_from_a_file(f0, cat, from);
        if winner(f0, cat, from) is Some {
            let (t, k) = winner(f0, cat, from)->0;
            let j = choose|j: int|
                0 <= j < f0.len() && last_to(file_renames(#[trigger] f0[j]), cat, from) == Some(t) && k == key_of(f0[j]);
            assert(files[j] == f0[j]);
            lemma_key_lt_asymmetric(k, key_of(files[i]));
        }
    } else {
        assert forall|j: int|
            0 <= j < f0.len() && j != i && (last_to(file_renames(#[trigger] f0[j]), cat, from) is Some)
                implies key_lt(key_of(f0[j]), key_of(f0[i])) by {
            assert(f0[j] == files[j]);
        }
        assert(f0[i] == files[i]);
        lemma_last_file_wins(f0, cat, from, i);
    }
}

/// The rename that stands for a name is the last one in the file that sorts
/// last among the files renaming it: whatever earlier files said is
/// overwritten, and a name nothing renames is absent.
pub proof fn law_the_last_file_wins(files: Seq<MigrationFile>, cat: Seq<char>, from: Seq<char>, i: int)
    requires
        0 <= i < files.len(),
        last_to(file_renames(files[i]), cat, from) is Some,
        forall|j: int|
            0 <= j < files.len() && j != i && (last_to(file_renames(#[trigger] files[j]), cat, from) is Some)
                ==> key_lt(key_of(files[j]), key_of(files[i])),
    ensures
        renames_spec(files).dom().contains(cat),
        renames_spec(files)[cat].dom().contains(from),
        renames_spec(files)[cat][from] == last_to(file_renames(files[i]), cat, from)->0,
{
    lemma_last_file_wins(files, cat, from, i);
    assert(winner(files, cat, from) is Some);
}

/// A name that no file renames has no entry.
pub proof fn law_unrenamed_names_are_absent(files: Seq<MigrationFile>, cat: Seq<char>, from: Seq<char>)
    requires
        forall|j: int| 0 <= j < files.len() ==> last_to(file_renames(#[trigger] files[j]), cat, from) is None,
    ensures
        !(renames_spec(files).dom().contains(cat) && renames_spec(files)[cat].dom().contains(from)),
{
    lemma_winner_from_a_file(files, cat, from);
}

/// Within a category, a pair `[from, to]` that comes last for `from` is the
/// rename that category gives it.
pub proof fn law_a_later_pair_wins(cat: Seq<char>, ps: Seq<JsonView>, from: Seq<char>, to: Seq<char>)
    ensures
        last_to(pairs_of(cat, ps.push(JsonView::Array(seq![JsonView::Str(from), JsonView::Str(to)]))), cat, from)
            == Some(to),
{
    let q = ps.push(JsonView::Array(seq![JsonView::Str(from), JsonView::Str(to)]));
    assert(q.drop_last() =~= ps);
}

/// An element that is not a list of exactly two strings renames nothing.
pub proof fn law_other_shapes_add_nothing(cat: Seq<char>, ps: Seq<JsonView>, x: JsonView)
    requires
        !(x matches JsonView::Array(pp) && pp.len() == 2 && pp[0] is Str && pp[1] is Str),
    ensures
        pairs_of(cat, ps.push(x)) == pairs_of(cat, ps),
{
    assert(ps.push(x).drop_last() =~= ps);
}

/// A file that is not `.json`, or that did not parse to an object, renames
/// nothing.
pub proof fn law_only_json_objects_rename(f: MigrationFile)
    requires
        !text::ends_with(f.file_name@, ".json"@) || !(f.content matches Some(Json::Object(_))),
    ensures
        file_renames(f) == Seq::<Rename>::empty(),
{
}

/// A table of renames, read as maps.
pub open spec fn renames_view(r: StrMap<StrMap<String>>) -> Map<Seq<char>, Map<Seq<char>, Seq<char>>> {
    r.view_map().map_values(|inner: StrMap<String>| inner.view_map().map_values(|s: String| s@))
}

/// A rename being collected, with the file it came from.
struct Pending {
    category: String,
    from: String,
    to: String,
    mod_name: String,
    file_name: String,
}

/// No two pending renames share a category and an old name.
spec fn unique(v: Seq<Pending>) -> bool {
    forall|a: int, b: int|
        0 <= a < v.len() && 0 <= b < v.len() && a != b ==> !(v[a].category@ == v[b].category@
            && v[a].from@ == v[b].from@)
}

/// Where the pending rename of `from` in `cat` is.
spec fn slot(v: Seq<Pending>, cat: Seq<char>, from: Seq<char>) -> Option<int> {
    if exists|j: int| 0 <= j < v.len() && v[j].category@ == cat && v[j].from@ == from {
        Some(choose|j: int| 0 <= j < v.len() && v[j].category@ == cat && v[j].from@ == from)
    } else {
        None
    }
}

/// The pending rename of `from` in `cat`, as a winner.
spec fn state(v: Seq<Pending>, cat: Seq<char>, from: Seq<char>) -> Winner {
    match slot(v, cat, from) {
        Some(j) => Some((v[j].to@, (v[j].mod_name@, v[j].file_name@))),
        None => None,
    }
}

proof fn lemma_slot_unique(v: Seq<Pending>, j: int)
    requires
        unique(v),
        0 <= j < v.len(),
    ensures
        slot(v, v[j].category@, v[j].from@) == Some(j),
{
    let s = slot(v, v[j].category@, v[j].from@);
    assert(s is Some);
}

proof fn lemma_combine_twice(w: Winner, x: Option<Seq<char>>, t: Seq<char>, k: FileKey)
    ensures
        combine(combine(w, x, k), Some(t), k) == combine(w, Some(t), k),
{
    text::lemma_lex_irreflexive(k.0);
    text::lemma_lex_irreflexive(k.1);
}

fn key_less(m1: &String, f1: &String, m2: &String, f2: &String) -> (b: bool)
    ensures
        b == key_lt((m1@, f1@), (m2@, f2@)),
{
    let a0 = text::chars_of_string(m1);
    let a1 = text::chars_of_string(f1);
    let b0 = text::chars_of_string(m2);
    let b1 = text::chars_of_string(f2);
    text::lex_less(&a0, &b0) || (text::chars_eq(&a0, &b0) && text::lex_less(&a1, &b1))
}

/// Records that the file at `(m, f)` renames `from` in `cat` to `to`.
fn apply(v: &mut Vec<Pending>, cat: &String, from: &String, to: &String, m: &String, f: &String)
    requires
        unique(old(v)@),
    ensures
        unique(final(v)@),
        forall|c: Seq<char>, g: Seq<char>| #[trigger]
            state(final(v)@, c, g) == if c == cat@ && g == from@ {
                combine(state(old(v)@, c, g), Some(to@), (m@, f@))
            } else {
                state(old(v)@, c, g)
            },
{
    let ghost before = v@;
    let cc = text::chars_of_string(cat);
    let fc = text::chars_of_string(from);
    let mut j: usize = 0;
    while j < v.len()
        invariant
            j <= v.len(),
            v@ == before,
            before == old(v)@,
            unique(before),
            cc@ == cat@,
            fc@ == from@,
            forall|i: int| 0 <= i < j ==> !(v@[i].category@ == cat@ && v@[i].from@ == from@),
        decreases v.len() - j,
    {
        let a = text::chars_of_string(&v[j].category);
        let b = text::chars_of_string(&v[j].from);
        if text::chars_eq(&a, &cc) && text::chars_eq(&b, &fc) {
            proof {
                lemma_slot_unique(before, j as int);
            }
            if !key_less(m, f, &v[j].mod_name, &v[j].file_name) {
                let p = Pending {
                    category: cat.clone(),
                    from: from.clone(),
                    to: to.clone(),
                    mod_name: m.clone(),
                    file_name: f.clone(),
                };
                v.set(j, p);
                proof {
                    let after = v@;
                    assert forall|a: int, b: int|
                        0 <= a < after.len() && 0 <= b < after.len() && a != b implies !(after[a].category@
                            == after[b].category@ && after[a].from@ == after[b].from@) by {
                        if a == j {
                            assert(before[a].category@ == cat@ && before[a].from@ == from@);
                        } else if b == j {
                            assert(before[b].category@ == cat@ && before[b].from@ == from@);
                        }
                    }
                    lemma_slot_unique(after, j as int);
                    let k0 = (before[j as int].mod_name@, before[j as int].file_name@);
                    assert(state(before, cat@, from@) == Some((before[j as int].to@, k0)));
                    assert(!key_lt((m@, f@), k0));
                    assert(state(after, cat@, from@) == Some((to@, (m@, f@))));
                    assert forall|c: Seq<char>, g: Seq<char>| #[trigger]
                        state(after, c, g) == if c == cat@ && g == from@ {
                            combine(state(before, c, g), Some(to@), (m@, f@))
                        } else {
                            state(before, c, g)
                        } by {
                        if !(c == cat@ && g == from@) {
                            if slot(after, c, g) is Some {
                                let s = slot(after, c, g)->0;
                                assert(s != j);
                                assert(after[s] == before[s]);
                                lemma_slot_unique(before, s);
                            }
                            if slot(before, c, g) is Some {
                                let s = slot(before, c, g)->0;
                                assert(s != j);
                                assert(after[s] == before[s]);
                                lemma_slot_unique(after, s);
                            }
                        }
                    }
                }
            } else {
                proof {
                    let k0 = (before[j as int].mod_name@, before[j as int].file_name@);
                    assert(state(before, cat@, from@) == Some((before[j as int].to@, k0)));
                    assert(key_lt((m@, f@), k0));
                    assert(combine(state(before, cat@, from@), Some(to@), (m@, f@)) == state(before, cat@, from@));
                    assert forall|c: Seq<char>, g: Seq<char>| #[trigger]
                        state(v@, c, g) == if c == cat@ && g == from@ {
                            combine(state(before, c, g), Some(to@), (m@, f@))
                        } else {
                            state(before, c, g)
                        } by {}
                }
            }
            return;
        }
        j = j + 1;
    }
    let p = Pending {
        category: cat.clone(),
        from: from.clone(),
        to: to.clone(),
        mod_name: m.clone(),
        file_name: f.clone(),
    };
    v.push(p);
    proof {
        let after = v@;
        let n = before.len() as int;
        assert forall|a: int, b: int|
            0 <= a < after.len() && 0 <= b < after.len() && a != b implies !(after[a].category@
                == after[b].category@ && after[a].from@ == after[b].from@) by {
            if a < n && b < n {
                assert(after[a] == before[a] && after[b] == before[b]);
            } else if a == n {
                assert(after[b] == before[b]);
            } else {
                assert(after[a] == before[a]);
            }
        }
        lemma_slot_unique(after, n);
        assert forall|c: Seq<char>, g: Seq<char>| #[trigger]
            state(after, c, g) == if c == cat@ && g == from@ {
                combine(state(before, c, g), Some(to@), (m@, f@))
            } else {
                state(before, c, g)
            } by {
            if c == cat@ && g == from@ {
                assert(slot(before, c, g) is None);
            } else {
                if slot(after, c, g) is Some {
                    let s = slot(after, c, g)->0;
                    assert(s != n);
                    assert(after[s] == before[s]);
                    lemma_slot_unique(before, s);
                }
                if slot(before, c, g) is Some {
                    let s = slot(before, c, g)->0;
                    assert(after[s] == before[s]);
                    lemma_slot_unique(after, s);
                }
            }
        }
    }
}


/// `inner` holds exactly the pending renames in `cat`, old name to new.
spec fn holds_renames_of(inner: StrMap<String>, v: Seq<Pending>, cat: Seq<char>) -> bool {
    &&& inner.wf()
    &&& forall|g: Seq<char>| #[trigger]
        inner.view_map().dom().contains(g) == (exists|j: int|
            0 <= j < v.len() && v[j].category@ == cat && v[j].from@ == g)
    &&& forall|j: int|
        0 <= j < v.len() && v[j].category@ == cat ==> inner.view_map()[#[trigger] v[j].from@]@ == v[j].to@
}

fn renames_in(v: &Vec<Pending>, cat: &Vec<char>) -> (inner: StrMap<String>)
    requires
        unique(v@),
    ensures
        holds_renames_of(inner, v@, cat@),
{
    let mut inner: StrMap<String> = StrMap::new();
    let mut t: usize = 0;
    while t < v.len()
        invariant
            t <= v.len(),
            unique(v@),
            inner.wf(),
            forall|g: Seq<char>| #[trigger]
                inner.view_map().dom().contains(g) == (exists|j: int|
                    0 <= j < t && v@[j].category@ == cat@ && v@[j].from@ == g),
            forall|j: int|
                0 <= j < t && v@[j].category@ == cat@ ==> inner.view_map()[#[trigger] v@[j].from@]@ == v@[j].to@,
        decreases v.len() - t,
    {
        let c = text::chars_of_string(&v[t].category);
        if text::chars_eq(&c, cat) {
            let ghost before = inner.view_map();
            inner.insert(v[t].from.clone(), v[t].to.clone());
            proof {
                assert forall|j: int|
                    0 <= j < t + 1 && v@[j].category@ == cat@ implies inner.view_map()[#[trigger] v@[j].from@]@
                    == v@[j].to@ by {
                    if j < t {
                        assert(v@[j].from@ != v@[t as int].from@);
                    }
                }
                assert forall|g: Seq<char>| #[trigger]
                    inner.view_map().dom().contains(g) == (exists|j: int|
                        0 <= j < t + 1 && v@[j].category@ == cat@ && v@[j].from@ == g) by {
                    if g == v@[t as int].from@ {
                        assert(v@[t as int].category@ == cat@);
                    }
                }
            }
        } else {
            proof {
                assert forall|g: Seq<char>| #[trigger]
                    inner.view_map().dom().contains(g) == (exists|j: int|
                        0 <= j < t + 1 && v@[j].category@ == cat@ && v@[j].from@ == g) by {
                    if exists|j: int| 0 <= j < t + 1 && v@[j].category@ == cat@ && v@[j].from@ == g {
                        let j = choose|j: int| 0 <= j < t + 1 && v@[j].category@ == cat@ && v@[j].from@ == g;
                        assert(j != t);
                    }
                }
            }
        }
        t = t + 1;
    }
    inner
}

/// Every rename the game knows about, from its migration files.
///
/// This is the difference between "I think `effectivity-module` was renamed"
/// and knowing it, along with every other rename shipped in the same window.
///
/// Only `.json` migrations count: `.lua` ones are arbitrary code, not data. A
/// file that would not parse, or holds something other than an object, is
/// skipped rather than fatal, and so is every pair that is not two strings.
/// Files apply in order of mod directory and then file name, a later one
/// overwriting an earlier one, which is the order the game applies
/// migrations in: a name renamed twice ends at its final value.
pub fn collect_renames(files: &Vec<MigrationFile>) -> (r: StrMap<StrMap<String>>)
    ensures
        r.wf(),
        forall|c: Seq<char>| #[trigger] r.view_map().dom().contains(c) ==> r.view_map()[c].wf(),
        renames_view(r) == renames_spec(files@),
{
    let mut pending: Vec<Pending> = Vec::new();
    let json = text::chars_of(".json");
    let mut i: usize = 0;
    while i < files.len()
        invariant
            i <= files.len(),
            json@ == ".json"@,
            unique(pending@),
            forall|c: Seq<char>, g: Seq<char>| #[trigger]
                state(pending@, c, g) == winner(files@.take(i as int), c, g),
        decreases files.len() - i,
    {
        let file = &files[i];
        let ghost p0 = pending@;
        let ghost key = key_of(*file);
        let name = text::chars_of_string(&file.file_name);
        if text::ends_with_exec(&name, &json) {
            match &file.content {
                Some(Json::Object(m)) => {
                    let mut k: usize = 0;
                    while k < m.entries.len()
                        invariant
                            k <= m.entries.len(),
                            unique(pending@),
                            key == key_of(*file),
                            forall|c: Seq<char>, g: Seq<char>| #[trigger]
                                state(pending@, c, g) == combine(
                                    state(p0, c, g),
                                    last_to(entry_renames(m.entries@.take(k as int)), c, g),
                                    key,
                                ),
                        decreases m.entries.len() - k,
                    {
                        let ghost t0 = entry_renames(m.entries@.take(k as int));
                        let ghost e1 = m.entries@.take(k + 1);
                        assert(e1.drop_last() =~= m.entries@.take(k as int));
                        assert(e1.last() == m.entries@[k as int]);
                        let cat = &m.entries[k].0;
                        match &m.entries[k].1 {
                            Json::Array(ps) => {
                                let ghost psv = m.entries@[k as int].1.jv()->Array_0;
                                assert(psv.len() == ps.len());
                                let mut p: usize = 0;
                                while p < ps.len()
                                    invariant
                                        p <= ps.len(),
                                        unique(pending@),
                                        key == key_of(*file),
                                        psv.len() == ps.len(),
                                        forall|j: int| 0 <= j < ps.len() ==> psv[j] == (#[trigger] ps@[j]).jv(),
                                        forall|c: Seq<char>, g: Seq<char>| #[trigger]
                                            state(pending@, c, g) == combine(
                                                state(p0, c, g),
                                                last_to(t0 + pairs_of(cat@, psv.take(p as int)), c, g),
                                                key,
                                            ),
                                    decreases ps.len() - p,
                                {
                                    let ghost before = pending@;
                                    let ghost q1 = psv.take(p + 1);
                                    assert(q1.drop_last() =~= psv.take(p as int));
                                    assert(q1.last() == ps@[p as int].jv());
                                    let ghost old_ts = t0 + pairs_of(cat@, psv.take(p as int));
                                    match &ps[p] {
                                        Json::Array(pp) => {
                                            if pp.len() == 2 {
                                                match (&pp[0], &pp[1]) {
                                                    (Json::Str(a), Json::Str(b)) => {
                                                        apply(&mut pending, cat, a, b, &file.mod_name, &file.file_name);
                                                        proof {
                                                            let pv = ps@[p as int].jv()->Array_0;
                                                            assert(ps@[p as int] == Json::Array(*pp));
                                                            assert(pv.len() == 2);
                                                            assert(pv[0] == pp@[0].jv());
                                                            assert(pv[1] == pp@[1].jv());
                                                            assert(pp@[0].jv() == JsonView::Str(a@));
                                                            assert(pp@[1].jv() == JsonView::Str(b@));
                                                            let new_ts = t0 + pairs_of(cat@, q1);
                                                            assert(new_ts =~= old_ts.push((cat@, a@, b@)));
                                                            assert forall|c: Seq<char>, g: Seq<char>| #[trigger]
                                                                state(pending@, c, g) == combine(
                                                                    state(p0, c, g),
                                                                    last_to(new_ts, c, g),
                                                                    key,
                                                                ) by {
                                                                assert(state(before, c, g) == combine(
                                                                    state(p0, c, g),
                                                                    last_to(old_ts, c, g),
                                                                    key,
                                                                ));
                                                                assert(new_ts.drop_last() == old_ts);
                                                                assert(new_ts.last() == (cat@, a@, b@));
                                                                if c == cat@ && g == a@ {
                                                                    assert(last_to(new_ts, c, g) == Some(b@));
                                                                    lemma_combine_twice(
                                                                        state(p0, c, g),
                                                                        last_to(old_ts, c, g),
                                                                        b@,
                                                                        key,
                                                                    );
                                                                }
                                                            }
                                                        }
                                                    },
                                                    _ => {
                                                        proof {
                                                            let pv = ps@[p as int].jv()->Array_0;
                                                            assert(!(pv[0] is Str && pv[1] is Str));
                                                            assert(t0 + pairs_of(cat@, q1) =~= old_ts);
                                                        }
                                                    },
                                                }
                                            } else {
                                                proof {
                                                    assert(t0 + pairs_of(cat@, q1) =~= old_ts);
                                                }
                                            }
                                        },
                                        _ => {
                                            proof {
                                                assert(t0 + pairs_of(cat@, q1) =~= old_ts);
                                            }
                                        },
                                    }
                                    p = p + 1;
                                }
                                proof {
                                    assert(psv.take(ps.len() as int) =~= psv);
                                    assert(entry_renames(e1) =~= t0 + pairs_of(cat@, psv));
                                }
                            },
                            _ => {
                                proof {
                                    assert(entry_renames(e1) =~= t0);
                                }
                            },
                        }
                        k = k + 1;
                    }
                    proof {
                        assert(m.entries@.take(m.entries.len() as int) =~= m.entries@);
                    }
                },
                _ => {},
            }
        }
        proof {
            let t1 = files@.take(i + 1);
            assert(t1.drop_last() =~= files@.take(i as int));
            assert(t1.last() == *file);
            assert forall|c: Seq<char>, g: Seq<char>| #[trigger]
                state(pending@, c, g) == winner(t1, c, g) by {
                if !text::ends_with(file.file_name@, ".json"@) || !(file.content matches Some(Json::Object(_))) {
                    assert(file_renames(*file) =~= Seq::<Rename>::empty());
                }
            }
        }
        i = i + 1;
    }
    assert(files@.take(files.len() as int) =~= files@);

    let mut cats: Vec<Vec<char>> = Vec::new();
    let mut j: usize = 0;
    while j < pending.len()
        invariant
            j <= pending.len(),
            forall|q: Seq<char>| #[trigger] member(text::views(cats@), q) == (exists|t: int|
                0 <= t < j && pending@[t].category@ == q),
        decreases pending.len() - j,
    {
        let ghost before = text::views(cats@);
        let c = text::chars_of_string(&pending[j].category);
        cats.push(c);
        proof {
            let nv = text::views(cats@);
            assert(nv =~= before.push(pending@[j as int].category@));
            assert forall|q: Seq<char>| #[trigger] member(nv, q) == (exists|t: int|
                0 <= t < j + 1 && pending@[t].category@ == q) by {
                if member(nv, q) {
                    let x = choose|x: int| 0 <= x < nv.len() && nv[x] == q;
                    if x < before.len() {
                        assert(before[x] == q);
                        assert(member(before, q));
                    }
                }
                if exists|t: int| 0 <= t < j + 1 && pending@[t].category@ == q {
                    let t = choose|t: int| 0 <= t < j + 1 && pending@[t].category@ == q;
                    if t < j {
                        assert(member(before, q));
                        let x = choose|x: int| 0 <= x < before.len() && before[x] == q;
                        assert(nv[x] == q);
                    } else {
                        assert(nv[before.len() as int] == q);
                    }
                }
            }
        }
        j = j + 1;
    }
    let names = sortedset::sorted_unique(&cats);
    let mut out: StrMap<StrMap<String>> = StrMap::new();
    let mut n: usize = 0;
    while n < names.len()
        invariant
            n <= names.len(),
            unique(pending@),
            out.wf(),
            crate::strmap::strictly_sorted(text::views(names@)),
            forall|q: Seq<char>| #[trigger] member(text::views(names@), q) == member(text::views(cats@), q),
            forall|q: Seq<char>| #[trigger] out.view_map().dom().contains(q) == member(text::views(names@).take(n as int), q),
            forall|q: Seq<char>| #[trigger] out.view_map().dom().contains(q) ==> holds_renames_of(out.view_map()[q], pending@, q),
        decreases names.len() - n,
    {
        let inner = renames_in(&pending, &names[n]);
        let key = text::string_of(&names[n]);
        let ghost k = names@[n as int]@;
        assert(text::views(names@)[n as int] == k);
        out.insert(key, inner);
        proof {
            let t1 = text::views(names@).take(n + 1);
            let t0 = text::views(names@).take(n as int);
            assert forall|q: Seq<char>| #[trigger] out.view_map().dom().contains(q) == member(t1, q) by {
                if member(t1, q) {
                    let x = choose|x: int| 0 <= x < t1.len() && t1[x] == q;
                    if x < n {
                        assert(t0[x] == q);
                        assert(member(t0, q));
                    }
                }
                if member(t0, q) {
                    let x = choose|x: int| 0 <= x < t0.len() && t0[x] == q;
                    assert(t1[x] == q);
                }
                if q == k {
                    assert(t1[n as int] == q);
                }
            }
        }
        n = n + 1;
    }
    assert(text::views(names@).take(names.len() as int) =~= text::views(names@));
    proof {
        let all = files@;
        let rv = renames_view(out);
        let want = renames_spec(all);
        assert forall|c: Seq<char>| rv.dom().contains(c) == want.dom().contains(c) by {
            if rv.dom().contains(c) {
                assert(member(text::views(cats@), c));
                let t = choose|t: int| 0 <= t < pending.len() && pending@[t].category@ == c;
                let g = pending@[t].from@;
                lemma_slot_unique(pending@, t);
                assert(state(pending@, c, g) is Some);
                assert(winner(all, c, g) is Some);
            }
            if want.dom().contains(c) {
                let g = choose|g: Seq<char>| #[trigger] winner(all, c, g) is Some;
                assert(state(pending@, c, g) is Some);
                let t = slot(pending@, c, g)->0;
                assert(pending@[t].category@ == c);
                assert(member(text::views(cats@), c));
            }
        }
        assert forall|c: Seq<char>| #[trigger] rv.dom().contains(c) implies rv[c] == want[c] by {
            let inner = out.view_map()[c];
            assert(holds_renames_of(inner, pending@, c));
            let a = rv[c];
            let b = want[c];
            assert forall|g: Seq<char>| a.dom().contains(g) == b.dom().contains(g) by {
                if a.dom().contains(g) {
                    let t = choose|t: int| 0 <= t < pending.len() && pending@[t].category@ == c && pending@[t].from@ == g;
                    lemma_slot_unique(pending@, t);
                    assert(state(pending@, c, g) is Some);
                }
                if b.dom().contains(g) {
                    assert(state(pending@, c, g) is Some);
                    let t = slot(pending@, c, g)->0;
                    assert(pending@[t].category@ == c && pending@[t].from@ == g);
                }
            }
            assert forall|g: Seq<char>| #[trigger] a.dom().contains(g) implies a[g] == b[g] by {
                let t = choose|t: int| 0 <= t < pending.len() && pending@[t].category@ == c && pending@[t].from@ == g;
                lemma_slot_unique(pending@, t);
                assert(inner.view_map()[pending@[t].from@]@ == pending@[t].to@);
                assert(state(pending@, c, g) == Some((pending@[t].to@, (pending@[t].mod_name@, pending@[t].file_name@))));
            }
            assert(a =~= b);
        }
        assert(rv =~= want);
    }
    out
}

} // verus!
