//! The version comparison: which fixtures were captured on an older Factorio
//! than the one selected.
//!
//! This is a report, not a gate, and the caller always exits 0. A fixture
//! captured on 2.1.11 is not wrong because the binary moved on - it means that
//! ground truth has not been re-validated since, and whether the gap matters
//! depends on whether the subsystem changed. That is a human's call, so this
//! never gets a say in whether a build passes.

use vstd::prelude::*;
use crate::provenance::manifest::{parse_triple, parse_triple_spec, FixtureEntry, Manifest, UNKNOWN};
use crate::text;

verus! {

/// Where one recorded version stands against the selected binary.
#[derive(Debug, Clone, Copy, PartialEq, Eq)]
pub enum Standing {
    Current,
    OlderThanBinary,
    /// Captured on a newer game than the one selected, which happens whenever
    /// an older install is selected on purpose.
    NewerThanBinary,
}

/// Every fixture recording one version.
#[derive(Debug, Clone)]
pub struct Group {
    pub version: String,
    pub names: Vec<String>,
    pub standing: Standing,
}

/// The whole comparison.
#[derive(Debug, Clone)]
pub struct VersionReport {
    pub binary_version: String,
    /// Oldest recorded version first.
    pub groups: Vec<Group>,
    /// Entries recording `unknown`, and entries whose version will not parse.
    /// The second kind is `check`'s to reject; this one only has to avoid
    /// losing it.
    pub unknown: Vec<String>,
    pub stale: usize,
}

/// A version triple.
pub type Triple = (u32, u32, u32);

/// The numeric order of versions: by major, then minor, then patch.
pub open spec fn triple_lt(a: Triple, b: Triple) -> bool {
    a.0 < b.0 || (a.0 == b.0 && (a.1 < b.1 || (a.1 == b.1 && a.2 < b.2)))
}

fn triple_less(a: Triple, b: Triple) -> (r: bool)
    ensures
        r == triple_lt(a, b),
{
    a.0 < b.0 || (a.0 == b.0 && (a.1 < b.1 || (a.1 == b.1 && a.2 < b.2)))
}

/// The version an entry records: its `factorioVersion`, or `unknown` where it
/// has none.
pub open spec fn recorded(e: FixtureEntry) -> Seq<char> {
    match e.version_spec() {
        Some(v) => v,
        None => UNKNOWN@,
    }
}

/// The recorded version as a triple, where it reads as one.
pub open spec fn entry_key(e: FixtureEntry) -> Option<Triple> {
    parse_triple_spec(recorded(e))
}

/// The entries, in name order, whose recorded version does not read as a
/// triple.
pub open spec fn unparsed_names(e: Seq<(String, FixtureEntry)>) -> Seq<Seq<char>>
    decreases e.len(),
{
    if e.len() == 0 {
        Seq::empty()
    } else {
        let r = unparsed_names(e.drop_last());
        if entry_key(e.last().1) is None {
            r.push(e.last().0@)
        } else {
            r
        }
    }
}

/// The entries, in name order, whose recorded version reads as `k`.
pub open spec fn names_with_key(e: Seq<(String, FixtureEntry)>, k: Triple) -> Seq<Seq<char>>
    decreases e.len(),
{
    if e.len() == 0 {
        Seq::empty()
    } else {
        let r = names_with_key(e.drop_last(), k);
        if entry_key(e.last().1) == Some(k) {
            r.push(e.last().0@)
        } else {
            r
        }
    }
}

/// The version text of the first entry, in name order, that reads as `k`.
pub open spec fn first_recorded(e: Seq<(String, FixtureEntry)>, k: Triple) -> Seq<char>
    decreases e.len(),
{
    if e.len() == 0 {
        Seq::empty()
    } else if names_with_key(e.drop_last(), k).len() > 0 {
        first_recorded(e.drop_last(), k)
    } else if entry_key(e.last().1) == Some(k) {
        recorded(e.last().1)
    } else {
        Seq::empty()
    }
}

/// How many entries record a version older than the binary's.
pub open spec fn stale_count(e: Seq<(String, FixtureEntry)>, binary: Option<Triple>) -> nat
    decreases e.len(),
{
    if e.len() == 0 {
        0
    } else {
        let r = stale_count(e.drop_last(), binary);
        match (entry_key(e.last().1), binary) {
            (Some(k), Some(b)) => if triple_lt(k, b) {
                r + 1
            } else {
                r
            },
            _ => r,
        }
    }
}

/// Where version `k` stands against the binary's version. A binary version
/// that does not read as a triple makes every version current.
pub open spec fn standing_spec(k: Triple, binary: Option<Triple>) -> Standing {
    match binary {
        Some(b) => if triple_lt(k, b) {
            Standing::OlderThanBinary
        } else if triple_lt(b, k) {
            Standing::NewerThanBinary
        } else {
            Standing::Current
        },
        None => Standing::Current,
    }
}

/// The version a group stands for.
pub open spec fn group_key(g: Group) -> Triple {
    parse_triple_spec(g.version@)->0
}

proof fn lemma_first_recorded_reads_as_key(e: Seq<(String, FixtureEntry)>, k: Triple)
    requires
        names_with_key(e, k).len() > 0,
    ensures
        parse_triple_spec(first_recorded(e, k)) == Some(k),
    decreases e.len(),
{
    if names_with_key(e.drop_last(), k).len() > 0 {
        lemma_first_recorded_reads_as_key(e.drop_last(), k);
    }
}

/// How many entries read as one of `ks` older than `b`, key by key.
pub open spec fn older_total(e: Seq<(String, FixtureEntry)>, ks: Seq<Triple>, b: Triple) -> nat
    decreases ks.len(),
{
    if ks.len() == 0 {
        0
    } else {
        older_total(e, ks.drop_last(), b) + if triple_lt(ks.last(), b) {
            names_with_key(e, ks.last()).len()
        } else {
            0
        }
    }
}

/// How many entries read as one of `ks`, key by key.
pub open spec fn keyed_total(e: Seq<(String, FixtureEntry)>, ks: Seq<Triple>) -> nat
    decreases ks.len(),
{
    if ks.len() == 0 {
        0
    } else {
        keyed_total(e, ks.drop_last()) + names_with_key(e, ks.last()).len()
    }
}

/// How many names the groups list, over the groups that stand older than the
/// binary.
pub open spec fn older_group_names(gs: Seq<Group>) -> nat
    decreases gs.len(),
{
    if gs.len() == 0 {
        0
    } else {
        older_group_names(gs.drop_last()) + if gs.last().standing == Standing::OlderThanBinary {
            gs.last().names@.len()
        } else {
            0
        }
    }
}

/// How many names the groups list in all.
pub open spec fn group_names_total(gs: Seq<Group>) -> nat
    decreases gs.len(),
{
    if gs.len() == 0 {
        0
    } else {
        group_names_total(gs.drop_last()) + gs.last().names@.len()
    }
}

/// No key occurs twice in `ks`.
pub open spec fn distinct_keys(ks: Seq<Triple>) -> bool {
    forall|a: int, c: int| 0 <= a < c < ks.len() ==> ks[a] != ks[c]
}

proof fn lemma_names_push(e: Seq<(String, FixtureEntry)>, x: (String, FixtureEntry), k: Triple)
    ensures
        names_with_key(e.push(x), k).len() == names_with_key(e, k).len() + if entry_key(x.1) == Some(k) {
            1nat
        } else {
            0nat
        },
{
    assert(e.push(x).drop_last() =~= e);
}

proof fn lemma_totals_push(e: Seq<(String, FixtureEntry)>, x: (String, FixtureEntry), ks: Seq<Triple>, b: Triple)
    requires
        distinct_keys(ks),
    ensures
        keyed_total(e.push(x), ks) == keyed_total(e, ks) + match entry_key(x.1) {
            Some(k) => if ks.contains(k) {
                1nat
            } else {
                0nat
            },
            None => 0nat,
        },
        older_total(e.push(x), ks, b) == older_total(e, ks, b) + match entry_key(x.1) {
            Some(k) => if ks.contains(k) && triple_lt(k, b) {
                1nat
            } else {
                0nat
            },
            None => 0nat,
        },
    decreases ks.len(),
{
    if ks.len() > 0 {
        let k0 = ks.drop_last();
        assert(distinct_keys(k0));
        lemma_totals_push(e, x, k0, b);
        lemma_names_push(e, x, ks.last());
        match entry_key(x.1) {
            Some(k) => {
                if ks.contains(k) {
                    let i = choose|i: int| 0 <= i < ks.len() && ks[i] == k;
                    if i < ks.len() - 1 {
                        assert(k0[i] == k);
                        assert(ks.last() != k);
                    } else {
                        if k0.contains(k) {
                            let a = choose|a: int| 0 <= a < k0.len() && k0[a] == k;
                            assert(ks[a] == ks[ks.len() - 1]);
                        }
                    }
                } else {
                    assert(ks.last() != k);
                    if k0.contains(k) {
                        let a = choose|a: int| 0 <= a < k0.len() && k0[a] == k;
                        assert(ks[a] == k);
                    }
                }
            },
            None => {},
        }
    }
}

/// Counted key by key over distinct keys that cover every version present,
/// the entries split into the unparsed ones and the keyed ones, and the
/// stale count is the count over the keys older than the binary.
proof fn lemma_partition(e: Seq<(String, FixtureEntry)>, ks: Seq<Triple>, b: Option<Triple>)
    requires
        distinct_keys(ks),
        forall|k: Triple| #[trigger] names_with_key(e, k).len() > 0 ==> ks.contains(k),
    ensures
        e.len() == unparsed_names(e).len() + keyed_total(e, ks),
        b matches Some(bb) ==> stale_count(e, b) == older_total(e, ks, bb),
        b is None ==> stale_count(e, b) == 0,
    decreases e.len(),
{
    if e.len() == 0 {
        lemma_totals_zero(e, ks, b);
    } else {
        let e0 = e.drop_last();
        let x = e.last();
        assert(e0.push(x) =~= e);
        assert forall|k: Triple| #[trigger] names_with_key(e0, k).len() > 0 implies ks.contains(k) by {
            lemma_names_push(e0, x, k);
        }
        lemma_partition(e0, ks, b);
        let bb = match b {
            Some(v) => v,
            None => (0u32, 0u32, 0u32),
        };
        lemma_totals_push(e0, x, ks, bb);
        match entry_key(x.1) {
            Some(k) => {
                lemma_names_push(e0, x, k);
                assert(names_with_key(e, k).len() > 0);
            },
            None => {},
        }
    }
}

proof fn lemma_totals_zero(e: Seq<(String, FixtureEntry)>, ks: Seq<Triple>, b: Option<Triple>)
    requires
        e.len() == 0,
    ensures
        keyed_total(e, ks) == 0,
        forall|bb: Triple| #[trigger] older_total(e, ks, bb) == 0,
    decreases ks.len(),
{
    if ks.len() > 0 {
        lemma_totals_zero(e, ks.drop_last(), b);
        assert forall|bb: Triple| #[trigger] older_total(e, ks, bb) == 0 by {
            assert(older_total(e, ks.drop_last(), bb) == 0);
        }
    }
}

/// The groups' counts are the key-by-key counts of their keys.
proof fn lemma_group_counts(e: Seq<(String, FixtureEntry)>, ks: Seq<Triple>, gs: Seq<Group>, b: Option<Triple>)
    requires
        gs.len() == ks.len(),
        forall|a: int|
            0 <= a < gs.len() ==> (#[trigger] gs[a]).names@.len() == names_with_key(e, ks[a]).len()
                && gs[a].standing == standing_spec(ks[a], b),
    ensures
        group_names_total(gs) == keyed_total(e, ks),
        b matches Some(bb) ==> older_group_names(gs) == older_total(e, ks, bb),
        b is None ==> older_group_names(gs) == 0,
    decreases gs.len(),
{
    if gs.len() > 0 {
        let g0 = gs.drop_last();
        let k0 = ks.drop_last();
        assert forall|a: int| 0 <= a < g0.len() implies (#[trigger] g0[a]).names@.len() == names_with_key(e, k0[a]).len()
            && g0[a].standing == standing_spec(k0[a], b) by {
            assert(g0[a] == gs[a] && k0[a] == ks[a]);
        }
        lemma_group_counts(e, k0, g0, b);
        assert(gs.last() == gs[gs.len() - 1]);
    }
}

/// The fixture names, in name order.
pub open spec fn fixture_names(e: Seq<(String, FixtureEntry)>) -> Seq<Seq<char>> {
    e.map_values(|p: (String, FixtureEntry)| p.0@)
}

/// The names listed under each of `ks` in turn.
pub open spec fn keyed_names(e: Seq<(String, FixtureEntry)>, ks: Seq<Triple>) -> Seq<Seq<char>>
    decreases ks.len(),
{
    if ks.len() == 0 {
        Seq::empty()
    } else {
        keyed_names(e, ks.drop_last()) + names_with_key(e, ks.last())
    }
}

/// The names the groups list, group after group.
pub open spec fn listed_names(gs: Seq<Group>) -> Seq<Seq<char>>
    decreases gs.len(),
{
    if gs.len() == 0 {
        Seq::empty()
    } else {
        listed_names(gs.drop_last()) + text::strs(gs.last().names@)
    }
}

proof fn lemma_keyed_names_push(e: Seq<(String, FixtureEntry)>, x: (String, FixtureEntry), ks: Seq<Triple>)
    requires
        distinct_keys(ks),
    ensures
        keyed_names(e.push(x), ks).to_multiset() == if entry_key(x.1) is Some && ks.contains(entry_key(x.1)->0) {
            keyed_names(e, ks).to_multiset().insert(x.0@)
        } else {
            keyed_names(e, ks).to_multiset()
        },
    decreases ks.len(),
{
    broadcast use vstd::seq_lib::group_to_multiset_ensures;
    if ks.len() > 0 {
        let k0 = ks.drop_last();
        let kl = ks.last();
        assert(distinct_keys(k0));
        lemma_keyed_names_push(e, x, k0);
        assert(e.push(x).drop_last() =~= e);
        let a0 = keyed_names(e, k0);
        let a1 = keyed_names(e.push(x), k0);
        let b0 = names_with_key(e, kl);
        let b1 = names_with_key(e.push(x), kl);
        vstd::seq_lib::lemma_multiset_commutative(a0, b0);
        vstd::seq_lib::lemma_multiset_commutative(a1, b1);
        match entry_key(x.1) {
            Some(k) => {
                if k == kl {
                    assert(b1 == b0.push(x.0@));
                    if k0.contains(k) {
                        let a = choose|a: int| 0 <= a < k0.len() && k0[a] == k;
                        assert(ks[a] == ks[ks.len() - 1]);
                    }
                    assert(ks.contains(k)) by {
                        assert(ks[ks.len() - 1] == k);
                    }
                } else {
                    assert(b1 == b0);
                    if ks.contains(k) {
                        let i = choose|i: int| 0 <= i < ks.len() && ks[i] == k;
                        assert(k0[i] == k);
                    }
                    if k0.contains(k) {
                        let a = choose|a: int| 0 <= a < k0.len() && k0[a] == k;
                        assert(ks[a] == k);
                    }
                }
            },
            None => {
                assert(b1 == b0);
            },
        }
    }
}

/// Over distinct keys that cover every version present, the unparsed names
/// and the names under each key are the fixture names, each once.
proof fn lemma_names_partition(e: Seq<(String, FixtureEntry)>, ks: Seq<Triple>)
    requires
        distinct_keys(ks),
        forall|k: Triple| #[trigger] names_with_key(e, k).len() > 0 ==> ks.contains(k),
    ensures
        (unparsed_names(e) + keyed_names(e, ks)).to_multiset() == fixture_names(e).to_multiset(),
    decreases e.len(),
{
    broadcast use vstd::seq_lib::group_to_multiset_ensures;
    vstd::seq_lib::lemma_multiset_commutative(unparsed_names(e), keyed_names(e, ks));
    if e.len() == 0 {
        lemma_keyed_names_empty(e, ks);
        assert(fixture_names(e) =~= Seq::<Seq<char>>::empty());
    } else {
        let e0 = e.drop_last();
        let x = e.last();
        assert(e0.push(x) =~= e);
        assert forall|k: Triple| #[trigger] names_with_key(e0, k).len() > 0 implies ks.contains(k) by {
            lemma_names_push(e0, x, k);
        }
        lemma_names_partition(e0, ks);
        vstd::seq_lib::lemma_multiset_commutative(unparsed_names(e0), keyed_names(e0, ks));
        lemma_keyed_names_push(e0, x, ks);
        assert(fixture_names(e) =~= fixture_names(e0).push(x.0@));
        match entry_key(x.1) {
            Some(k) => {
                lemma_names_push(e0, x, k);
                assert(names_with_key(e, k).len() > 0);
                assert(unparsed_names(e) == unparsed_names(e0));
            },
            None => {
                assert(unparsed_names(e) == unparsed_names(e0).push(x.0@));
            },
        }
    }
}

proof fn lemma_keyed_names_empty(e: Seq<(String, FixtureEntry)>, ks: Seq<Triple>)
    requires
        e.len() == 0,
    ensures
        keyed_names(e, ks) == Seq::<Seq<char>>::empty(),
    decreases ks.len(),
{
    if ks.len() > 0 {
        lemma_keyed_names_empty(e, ks.drop_last());
        assert(keyed_names(e, ks) =~= Seq::<Seq<char>>::empty());
    }
}

proof fn lemma_listed_is_keyed(e: Seq<(String, FixtureEntry)>, ks: Seq<Triple>, gs: Seq<Group>)
    requires
        gs.len() == ks.len(),
        forall|a: int| 0 <= a < gs.len() ==> text::strs((#[trigger] gs[a]).names@) == names_with_key(e, ks[a]),
    ensures
        listed_names(gs) == keyed_names(e, ks),
    decreases gs.len(),
{
    if gs.len() > 0 {
        let g0 = gs.drop_last();
        let k0 = ks.drop_last();
        assert forall|a: int| 0 <= a < g0.len() implies text::strs((#[trigger] g0[a]).names@) == names_with_key(e, k0[a]) by {
            assert(g0[a] == gs[a] && k0[a] == ks[a]);
        }
        lemma_listed_is_keyed(e, k0, g0);
        assert(gs.last() == gs[gs.len() - 1]);
    }
}

fn recorded_of(e: &FixtureEntry) -> (r: String)
    ensures
        r@ == recorded(*e),
{
    match e.version() {
        Some(v) => v.clone(),
        None => UNKNOWN.to_string(),
    }
}

fn names_for(e: &Vec<(String, FixtureEntry)>, k: Triple) -> (r: Vec<String>)
    ensures
        text::strs(r@) == names_with_key(e@, k),
{
    let mut r: Vec<String> = Vec::new();
    let mut j: usize = 0;
    while j < e.len()
        invariant
            j <= e.len(),
            text::strs(r@) == names_with_key(e@.take(j as int), k),
        decreases e.len() - j,
    {
        let ghost t1 = e@.take(j + 1);
        assert(t1.drop_last() =~= e@.take(j as int));
        let rec = recorded_of(&e[j].1);
        match parse_triple(rec.as_str()) {
            Some(key) => {
                if key.0 == k.0 && key.1 == k.1 && key.2 == k.2 {
                    text::push_string(&mut r, e[j].0.as_str());
                }
            },
            None => {},
        }
        j = j + 1;
    }
    assert(e@.take(e.len() as int) =~= e@);
    r
}

/// Groups the fixtures by recorded version, oldest first, and counts the
/// ones older than `binary_version`.
///
/// Versions are ordered as numbers, so `2.1.9` comes before `2.1.14`. A group
/// keeps the text of its first entry's version. Entries whose version does
/// not read as a triple, `unknown` included, are listed apart rather than
/// dropped.
pub fn compare(manifest: &Manifest, binary_version: &str) -> (r: VersionReport)
    ensures
        r.binary_version@ == binary_version@,
        text::strs(r.unknown@) == unparsed_names(manifest.fixtures.entries@),
        r.stale == stale_count(manifest.fixtures.entries@, parse_triple_spec(binary_version@)),
        forall|i: int| 0 <= i < r.groups.len() ==> parse_triple_spec(#[trigger] r.groups@[i].version@) is Some,
        forall|i: int, j: int|
            0 <= i < j < r.groups.len() ==> triple_lt(group_key(#[trigger] r.groups@[i]), group_key(#[trigger] r.groups@[j])),
        forall|i: int|
            0 <= i < r.groups.len() ==> {
                let g = #[trigger] r.groups@[i];
                &&& text::strs(g.names@) == names_with_key(manifest.fixtures.entries@, group_key(g))
                &&& g.version@ == first_recorded(manifest.fixtures.entries@, group_key(g))
                &&& g.standing == standing_spec(group_key(g), parse_triple_spec(binary_version@))
            },
        forall|k: Triple|
            names_with_key(manifest.fixtures.entries@, k).len() > 0 ==> exists|i: int|
                0 <= i < r.groups.len() && group_key(#[trigger] r.groups@[i]) == k,
        forall|i: int| 0 <= i < r.groups.len() ==> (#[trigger] r.groups@[i]).names@.len() > 0,
        r.stale == older_group_names(r.groups@),
        r.unknown@.len() + group_names_total(r.groups@) == manifest.fixtures.entries@.len(),
        (text::strs(r.unknown@) + listed_names(r.groups@)).to_multiset() == fixture_names(
            manifest.fixtures.entries@,
        ).to_multiset(),
{
    let e = &manifest.fixtures.entries;
    let ghost ev = e@;
    let bk = parse_triple(binary_version);
    let mut keys: Vec<Triple> = Vec::new();
    let mut versions: Vec<String> = Vec::new();
    let mut unknown: Vec<String> = Vec::new();
    let mut stale: usize = 0;
    let mut j: usize = 0;
    while j < e.len()
        invariant
            j <= e.len(),
            ev == e@,
            bk == parse_triple_spec(binary_version@),
            keys.len() == versions.len(),
            stale <= j,
            stale == stale_count(ev.take(j as int), bk),
            text::strs(unknown@) == unparsed_names(ev.take(j as int)),
            forall|a: int, b: int| 0 <= a < b < keys.len() ==> triple_lt(#[trigger] keys@[a], #[trigger] keys@[b]),
            forall|a: int|
                0 <= a < keys.len() ==> names_with_key(ev.take(j as int), #[trigger] keys@[a]).len() > 0
                    && versions@[a]@ == first_recorded(ev.take(j as int), keys@[a]),
            forall|k: Triple|
                #[trigger] names_with_key(ev.take(j as int), k).len() > 0 ==> exists|a: int|
                    0 <= a < keys.len() && keys@[a] == k,
        decreases e.len() - j,
    {
        let ghost t0 = ev.take(j as int);
        let ghost t1 = ev.take(j + 1);
        assert(t1.drop_last() =~= t0);
        assert(t1.last() == ev[j as int]);
        let rec = recorded_of(&e[j].1);
        match parse_triple(rec.as_str()) {
            None => {
                text::push_string(&mut unknown, e[j].0.as_str());
                proof {
                    assert forall|k: Triple| names_with_key(t1, k) == names_with_key(t0, k) by {}
                    assert forall|k: Triple| first_recorded(t1, k) == first_recorded(t0, k) || names_with_key(t0, k).len() == 0 by {}
                }
            },
            Some(k) => {
                match bk {
                    Some(b) => {
                        if triple_less(k, b) {
                            stale = stale + 1;
                        }
                    },
                    None => {},
                }
                let mut p: usize = 0;
                while p < keys.len() && triple_less(keys[p], k)
                    invariant
                        p <= keys.len(),
                        forall|a: int| 0 <= a < p ==> triple_lt(#[trigger] keys@[a], k),
                    decreases keys.len() - p,
                {
                    p = p + 1;
                }
                if p < keys.len() && keys[p].0 == k.0 && keys[p].1 == k.1 && keys[p].2 == k.2 {
                    proof {
                        assert forall|a: int|
                            0 <= a < keys.len() implies names_with_key(t1, #[trigger] keys@[a]).len() > 0
                                && versions@[a]@ == first_recorded(t1, keys@[a]) by {
                            assert(names_with_key(t0, keys@[a]).len() > 0);
                        }
                        assert forall|q: Triple|
                            #[trigger] names_with_key(t1, q).len() > 0 implies exists|a: int|
                                0 <= a < keys.len() && keys@[a] == q by {
                            if q == k {
                                assert(keys@[p as int] == q);
                            } else {
                                assert(names_with_key(t1, q) == names_with_key(t0, q));
                            }
                        }
                    }
                } else {
                    let ghost old_keys = keys@;
                    let ghost old_versions = versions@;
                    proof {
                        // `k` is new: no earlier entry reads as it.
                        if names_with_key(t0, k).len() > 0 {
                            let a = choose|a: int| 0 <= a < old_keys.len() && old_keys[a] == k;
                            if a < p {
                                assert(triple_lt(old_keys[a], k));
                            } else if a > p {
                                assert(triple_lt(old_keys[p as int], old_keys[a]));
                            }
                        }
                    }
                    keys.insert(p, k);
                    versions.insert(p, rec);
                    proof {
                        assert(names_with_key(t0, k).len() == 0);
                        assert(names_with_key(t1, k) == names_with_key(t0, k).push(ev[j as int].0@));
                        assert(first_recorded(t1, k) == recorded(ev[j as int].1));
                        assert forall|a: int, b: int| 0 <= a < b < keys.len() implies triple_lt(
                            #[trigger] keys@[a],
                            #[trigger] keys@[b],
                        ) by {
                            if b < p {
                                assert(keys@[a] == old_keys[a] && keys@[b] == old_keys[b]);
                            } else if b == p {
                                assert(keys@[a] == old_keys[a]);
                            } else if a < p {
                                assert(keys@[a] == old_keys[a] && keys@[b] == old_keys[b - 1]);
                                assert(triple_lt(old_keys[p as int], old_keys[b - 1]) || p == b - 1);
                            } else if a == p {
                                assert(keys@[b] == old_keys[b - 1]);
                                assert(triple_lt(old_keys[p as int], old_keys[b - 1]) || p == b - 1);
                            } else {
                                assert(keys@[a] == old_keys[a - 1] && keys@[b] == old_keys[b - 1]);
                            }
                        }
                        assert forall|a: int|
                            0 <= a < keys.len() implies names_with_key(t1, #[trigger] keys@[a]).len() > 0
                                && versions@[a]@ == first_recorded(t1, keys@[a]) by {
                            if a < p {
                                assert(keys@[a] == old_keys[a] && versions@[a] == old_versions[a]);
                                assert(names_with_key(t0, old_keys[a]).len() > 0);
                            } else if a > p {
                                assert(keys@[a] == old_keys[a - 1] && versions@[a] == old_versions[a - 1]);
                                assert(names_with_key(t0, old_keys[a - 1]).len() > 0);
                            }
                        }
                        assert forall|q: Triple|
                            #[trigger] names_with_key(t1, q).len() > 0 implies exists|a: int|
                                0 <= a < keys.len() && keys@[a] == q by {
                            if q == k {
                                assert(keys@[p as int] == q);
                            } else {
                                assert(names_with_key(t1, q) == names_with_key(t0, q));
                                let a = choose|a: int| 0 <= a < old_keys.len() && old_keys[a] == q;
                                if a < p {
                                    assert(keys@[a] == q);
                                } else {
                                    assert(keys@[a + 1] == q);
                                }
                            }
                        }
                    }
                }
            },
        }
        j = j + 1;
    }
    assert(ev.take(e.len() as int) =~= ev);

    let mut groups: Vec<Group> = Vec::new();
    let mut i: usize = 0;
    while i < keys.len()
        invariant
            i <= keys.len(),
            keys.len() == versions.len(),
            ev == e@,
            bk == parse_triple_spec(binary_version@),
            groups.len() == i,
            forall|a: int, b: int| 0 <= a < b < keys.len() ==> triple_lt(#[trigger] keys@[a], #[trigger] keys@[b]),
            forall|a: int|
                0 <= a < keys.len() ==> names_with_key(ev, #[trigger] keys@[a]).len() > 0
                    && versions@[a]@ == first_recorded(ev, keys@[a]),
            forall|q: Triple|
                #[trigger] names_with_key(ev, q).len() > 0 ==> exists|a: int|
                    0 <= a < keys.len() && keys@[a] == q,
            forall|a: int|
                0 <= a < i ==> {
                    let g = #[trigger] groups@[a];
                    &&& g.version@ == versions@[a]@
                    &&& group_key(g) == keys@[a]
                    &&& parse_triple_spec(g.version@) is Some
                    &&& text::strs(g.names@) == names_with_key(ev, keys@[a])
                    &&& g.standing == standing_spec(keys@[a], bk)
                },
        decreases keys.len() - i,
    {
        let k = keys[i];
        let names = names_for(e, k);
        let standing = match bk {
            Some(b) => if triple_less(k, b) {
                Standing::OlderThanBinary
            } else if triple_less(b, k) {
                Standing::NewerThanBinary
            } else {
                Standing::Current
            },
            None => Standing::Current,
        };
        proof {
            lemma_first_recorded_reads_as_key(ev, k);
        }
        let g = Group { version: versions[i].clone(), names, standing };
        groups.push(g);
        i = i + 1;
    }
    proof {
        assert forall|q: Triple|
            names_with_key(ev, q).len() > 0 implies exists|a: int|
                0 <= a < groups.len() && group_key(#[trigger] groups@[a]) == q by {
            let a = choose|a: int| 0 <= a < keys.len() && keys@[a] == q;
            assert(group_key(groups@[a]) == q);
        }
    }
    proof {
        assert forall|q: Triple| #[trigger] names_with_key(ev, q).len() > 0 implies keys@.contains(q) by {
            let a = choose|a: int| 0 <= a < keys.len() && keys@[a] == q;
        }
        assert(distinct_keys(keys@));
        lemma_partition(ev, keys@, bk);
        assert forall|a: int| 0 <= a < groups@.len() implies (#[trigger] groups@[a]).names@.len() == names_with_key(ev, keys@[a]).len()
            && groups@[a].standing == standing_spec(keys@[a], bk) by {
            assert(text::strs(groups@[a].names@).len() == groups@[a].names@.len());
        }
        lemma_group_counts(ev, keys@, groups@, bk);
        lemma_names_partition(ev, keys@);
        lemma_listed_is_keyed(ev, keys@, groups@);
        assert forall|i: int| 0 <= i < groups@.len() implies (#[trigger] groups@[i]).names@.len() > 0 by {
            assert(text::strs(groups@[i].names@).len() == groups@[i].names@.len());
            assert(names_with_key(ev, keys@[i]).len() > 0);
        }
        assert(text::strs(unknown@).len() == unknown@.len());
    }
    VersionReport { binary_version: binary_version.to_string(), groups, unknown, stale }
}



/// No fixture is lost: an entry whose version reads as a triple is among the
/// names listed for that version, and every other entry is listed as unknown.
pub proof fn law_every_fixture_is_grouped_or_unknown(e: Seq<(String, FixtureEntry)>, j: int)
    requires
        0 <= j < e.len(),
    ensures
        match entry_key(e[j].1) {
            Some(k) => names_with_key(e, k).contains(e[j].0@),
            None => unparsed_names(e).contains(e[j].0@),
        },
    decreases e.len(),
{
    let e0 = e.drop_last();
    if j < e.len() - 1 {
        law_every_fixture_is_grouped_or_unknown(e0, j);
        assert(e0[j] == e[j]);
        match entry_key(e[j].1) {
            Some(k) => {
                let a = names_with_key(e0, k);
                let i = choose|i: int| 0 <= i < a.len() && a[i] == e[j].0@;
                assert(names_with_key(e, k)[i] == e[j].0@);
            },
            None => {
                let a = unparsed_names(e0);
                let i = choose|i: int| 0 <= i < a.len() && a[i] == e[j].0@;
                assert(unparsed_names(e)[i] == e[j].0@);
            },
        }
    } else {
        assert(e.last() == e[j]);
        match entry_key(e[j].1) {
            Some(k) => {
                let a = names_with_key(e, k);
                assert(a[a.len() - 1] == e[j].0@);
            },
            None => {
                let a = unparsed_names(e);
                assert(a[a.len() - 1] == e[j].0@);
            },
        }
    }
}

/// What a group's line says of its standing.
pub open spec fn mark_spec(st: Standing, binary: Seq<char>) -> Seq<char> {
    match st {
        Standing::Current => "current"@,
        Standing::OlderThanBinary => binary + " is newer"@,
        Standing::NewerThanBinary => "newer than "@ + binary,
    }
}

/// One line of the table: the label in nine columns, the count in three,
/// then what it means.
pub open spec fn count_line(label: Seq<char>, n: nat, tail: Seq<char>) -> Seq<char> {
    "  "@ + text::pad_right(label, 9) + " "@ + text::pad_left(text::decimal(n), 3) + " fixture(s)   "@
        + tail + seq!['\n']
}

/// The table's line for each group in turn.
pub open spec fn group_lines(gs: Seq<Group>, binary: Seq<char>) -> Seq<char>
    decreases gs.len(),
{
    if gs.len() == 0 {
        Seq::empty()
    } else {
        group_lines(gs.drop_last(), binary) + count_line(
            gs.last().version@,
            gs.last().names@.len(),
            mark_spec(gs.last().standing, binary),
        )
    }
}

/// Each name on a line of its own, indented under the table.
pub open spec fn name_lines(ns: Seq<Seq<char>>) -> Seq<char>
    decreases ns.len(),
{
    if ns.len() == 0 {
        Seq::empty()
    } else {
        name_lines(ns.drop_last()) + text::spaces(14) + ns.last() + seq!['\n']
    }
}

/// The entries with no usable version: a line for them, then their names.
/// Nothing when there are none.
pub open spec fn unknown_block(ns: Seq<Seq<char>>) -> Seq<char> {
    if ns.len() == 0 {
        Seq::empty()
    } else {
        count_line("unknown"@, ns.len(), "provenance never recorded"@) + name_lines(ns)
    }
}

/// The closing paragraph: how many fixtures predate the binary, or that none
/// does.
pub open spec fn closing(stale: nat) -> Seq<char> {
    if stale > 0 {
        seq!['\n'] + text::decimal(stale) + stale_warning()
    } else {
        no_stale_line()
    }
}

/// The warning that closes a report with stale fixtures, after their count.
pub open spec fn stale_warning() -> Seq<char> {
    " fixture(s) predate the installed binary. Not necessarily wrong -\nre-capture only where the subsystem changed between those versions.\n"@
}

/// The line that closes a report without stale fixtures.
pub open spec fn no_stale_line() -> Seq<char> {
    "\nNo fixture predates the installed binary.\n"@
}

/// The report closes with the stale warning exactly when some fixture is
/// stale, and otherwise with the line saying none is.
pub proof fn law_warning_exactly_when_stale(r: VersionReport)
    ensures
        r.stale > 0 <==> text::ends_with(render_spec(r), stale_warning()),
        r.stale == 0 <==> text::ends_with(render_spec(r), no_stale_line()),
{
    reveal_strlit(" fixture(s) predate the installed binary. Not necessarily wrong -\nre-capture only where the subsystem changed between those versions.\n");
    reveal_strlit("\nNo fixture predates the installed binary.\n");
    let t = render_spec(r);
    let w = stale_warning();
    let n = no_stale_line();
    let head = "Fixture ground truth vs the installed binary ("@ + r.binary_version@ + "):\n"@ + group_lines(
        r.groups@,
        r.binary_version@,
    ) + unknown_block(text::strs(r.unknown@));
    if r.stale > 0 {
        let pre = head + seq!['\n'] + text::decimal(r.stale as nat);
        assert(t =~= pre + w);
        assert(t.skip(t.len() - w.len()) =~= w);
        // It does not end with the other line: the third character from the end differs.
        if text::ends_with(t, n) {
            assert(t[t.len() - 3] == n[n.len() - 3]);
            assert(t[t.len() - 3] == w[w.len() - 3]);
        }
    } else {
        assert(t =~= head + n);
        assert(t.skip(t.len() - n.len()) =~= n);
        if text::ends_with(t, w) {
            assert(t[t.len() - 3] == w[w.len() - 3]);
            assert(t[t.len() - 3] == n[n.len() - 3]);
        }
    }
}

/// The whole text `render` writes.
pub open spec fn render_spec(r: VersionReport) -> Seq<char> {
    "Fixture ground truth vs the installed binary ("@ + r.binary_version@ + "):\n"@ + group_lines(
        r.groups@,
        r.binary_version@,
    ) + unknown_block(text::strs(r.unknown@)) + closing(r.stale as nat)
}

fn push_count_line(out: &mut Vec<char>, label: &Vec<char>, n: usize, tail: &Vec<char>)
    ensures
        final(out)@ == old(out)@ + count_line(label@, n as nat, tail@),
{
    text::push_str(out, "  ");
    text::push_pad_right(out, label, 9);
    text::push_str(out, " ");
    let d = text::decimal_chars(n as u64);
    text::push_pad_left(out, &d, 3);
    text::push_str(out, " fixture(s)   ");
    text::push_all(out, tail);
    out.push('\n');
    assert(out@ =~= old(out)@ + count_line(label@, n as nat, tail@));
}

fn closing_exec(stale: usize) -> (c: Vec<char>)
    ensures
        c@ == closing(stale as nat),
{
    let mut out: Vec<char> = Vec::new();
    if stale > 0 {
        out.push('\n');
        let d = text::decimal_chars(stale as u64);
        text::push_all(&mut out, &d);
        text::push_str(
            &mut out,
            " fixture(s) predate the installed binary. Not necessarily wrong -\nre-capture only where the subsystem changed between those versions.\n",
        );
    } else {
        text::push_str(&mut out, "\nNo fixture predates the installed binary.\n");
    }
    assert(out@ =~= closing(stale as nat));
    out
}

/// The text a human reads: a table of recorded versions against the
/// binary's, oldest first, the entries with no usable version, and how many
/// fixtures predate the binary.
pub fn render(report: &VersionReport) -> (s: String)
    ensures
        s@ == render_spec(*report),
{
    let bv = text::chars_of_string(&report.binary_version);
    let mut out = text::chars_of("Fixture ground truth vs the installed binary (");
    text::push_all(&mut out, &bv);
    text::push_str(&mut out, "):\n");
    let ghost head = out@;
    let mut i: usize = 0;
    while i < report.groups.len()
        invariant
            i <= report.groups.len(),
            bv@ == report.binary_version@,
            out@ == head + group_lines(report.groups@.take(i as int), bv@),
        decreases report.groups.len() - i,
    {
        let g = &report.groups[i];
        let mut mark: Vec<char> = Vec::new();
        match g.standing {
            Standing::Current => text::push_str(&mut mark, "current"),
            Standing::OlderThanBinary => {
                text::push_all(&mut mark, &bv);
                text::push_str(&mut mark, " is newer");
            },
            Standing::NewerThanBinary => {
                text::push_str(&mut mark, "newer than ");
                text::push_all(&mut mark, &bv);
            },
        }
        assert(mark@ =~= mark_spec(g.standing, bv@));
        let version = text::chars_of_string(&g.version);
        push_count_line(&mut out, &version, g.names.len(), &mark);
        proof {
            let t1 = report.groups@.take(i + 1);
            assert(t1.drop_last() =~= report.groups@.take(i as int));
            assert(t1.last() == *g);
        }
        i = i + 1;
    }
    assert(report.groups@.take(report.groups.len() as int) =~= report.groups@);
    let ghost mid = out@;
    if report.unknown.len() > 0 {
        let label = text::chars_of("unknown");
        let tail = text::chars_of("provenance never recorded");
        push_count_line(&mut out, &label, report.unknown.len(), &tail);
        let ghost after_line = out@;
        let mut k: usize = 0;
        while k < report.unknown.len()
            invariant
                k <= report.unknown.len(),
                out@ == after_line + name_lines(text::strs(report.unknown@).take(k as int)),
            decreases report.unknown.len() - k,
        {
            let sp = text::spaces_exec(14);
            text::push_all(&mut out, &sp);
            text::push_str(&mut out, report.unknown[k].as_str());
            out.push('\n');
            proof {
                let t1 = text::strs(report.unknown@).take(k + 1);
                assert(t1.drop_last() =~= text::strs(report.unknown@).take(k as int));
                assert(t1.last() == report.unknown@[k as int]@);
            }
            k = k + 1;
            assert(out@ =~= after_line + name_lines(text::strs(report.unknown@).take(k as int)));
        }
        assert(text::strs(report.unknown@).take(report.unknown.len() as int) =~= text::strs(report.unknown@));
    }
    assert(out@ == mid + unknown_block(text::strs(report.unknown@)));
    let c = closing_exec(report.stale);
    text::push_all(&mut out, &c);
    assert(out@ =~= render_spec(*report));
    text::string_of(&out)
}

} // verus!
