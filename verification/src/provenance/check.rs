//! The structural half of enforcement: coverage, dangling entries,
//! well-formedness, and the `unknown` ratchet.
//!
//! This needs no Factorio, which is the whole point. It answers one question -
//! does the record still describe the directory? - and a consumer can run it in
//! CI on a machine that has never had the game.
//!
//! Deliberately not here: whether a recorded version is old. That needs a
//! binary and it needs a human, so it lives in `report`.

use vstd::prelude::*;
use crate::provenance::manifest::{entry_problem, entry_problem_spec, Manifest, UNKNOWN};
use crate::sortedset;
use crate::sortedset::{lists, member, sorted_of};
use crate::strmap::{keys_of, map_of, strictly_sorted, StrMap};
use crate::text;

verus! {

/// How the `unknown` count compares to what the manifest declared.
#[derive(Debug, Clone, PartialEq, Eq)]
pub enum Ratchet {
    /// Exactly the declared number.
    Held,
    /// More than declared. A fixture was committed without recording where it
    /// came from.
    Exceeded { count: usize, max: usize },
    /// Fewer than declared. A gap was closed and the number was not lowered.
    /// A cap that never has to fall is not a ratchet.
    Slack { count: usize, max: usize },
    /// The manifest never declared a number, which is not the same as
    /// declaring zero.
    Undeclared { count: usize },
}

/// One entry that is not well formed.
#[derive(Debug, Clone, PartialEq, Eq)]
pub struct Malformed {
    pub entry: String,
    pub problem: String,
}

/// Everything the check found. Empty lists and `Ratchet::Held` mean a pass.
#[derive(Debug, Clone)]
pub struct CheckReport {
    pub fixtures: usize,
    pub not_fixtures: usize,
    /// On disk, named by neither list.
    pub missing: Vec<String>,
    /// Named by a list, not on disk.
    pub dangling: Vec<String>,
    pub malformed: Vec<Malformed>,
    /// Fixture entries recording `unknown`, which is what the ratchet counts.
    pub unknown: Vec<String>,
    pub ratchet: Ratchet,
}

/// The finding for a name on both lists.
pub const BOTH_LISTS: &'static str = "named as both a fixture and a not-fixture";

/// The finding for a not-fixture with a blank reason.
pub const NO_REASON: &'static str = "a not-fixture must give a reason";

/// Each finding as its entry name and its problem.
pub open spec fn malformed_view(v: Seq<Malformed>) -> Seq<(Seq<char>, Seq<char>)> {
    v.map_values(|x: Malformed| (x.entry@, x.problem@))
}

/// Whether the manifest names `k` on either list.
pub open spec fn named(m: Manifest, k: Seq<char>) -> bool {
    m.fixtures.view_map().dom().contains(k) || m.not_fixtures.view_map().dom().contains(k)
}

/// The findings for `k` as a fixture: on both lists, then its own problem.
pub open spec fn fixture_problems(m: Manifest, k: Seq<char>) -> Seq<(Seq<char>, Seq<char>)> {
    if m.fixtures.view_map().dom().contains(k) {
        let both = if m.not_fixtures.view_map().dom().contains(k) {
            seq![(k, BOTH_LISTS@)]
        } else {
            Seq::empty()
        };
        match entry_problem_spec(m.fixtures.view_map()[k]) {
            Some(p) => both.push((k, p)),
            None => both,
        }
    } else {
        Seq::empty()
    }
}

/// The finding for `k` as a not-fixture: a blank reason.
pub open spec fn reason_problems(m: Manifest, k: Seq<char>) -> Seq<(Seq<char>, Seq<char>)> {
    if m.not_fixtures.view_map().dom().contains(k) && text::trim(m.not_fixtures.view_map()[k]@).len()
        == 0 {
        seq![(k, NO_REASON@)]
    } else {
        Seq::empty()
    }
}

/// Every finding for one name, fixture findings first.
pub open spec fn problems_of(m: Manifest, k: Seq<char>) -> Seq<(Seq<char>, Seq<char>)> {
    fixture_problems(m, k) + reason_problems(m, k)
}

/// The findings for each of `names` in turn.
pub open spec fn problems_over(m: Manifest, names: Seq<Seq<char>>) -> Seq<(Seq<char>, Seq<char>)>
    decreases names.len(),
{
    if names.len() == 0 {
        Seq::empty()
    } else {
        problems_over(m, names.drop_last()) + problems_of(m, names.last())
    }
}

/// Files on disk that neither list names, sorted.
pub open spec fn missing_spec(m: Manifest, on_disk: Seq<Seq<char>>) -> Seq<Seq<char>> {
    sorted_of(|q: Seq<char>| member(on_disk, q) && !named(m, q))
}

/// Names on either list with no file on disk, sorted.
pub open spec fn dangling_spec(m: Manifest, on_disk: Seq<Seq<char>>) -> Seq<Seq<char>> {
    sorted_of(|q: Seq<char>| named(m, q) && !member(on_disk, q))
}

/// Every finding about the entries: name by name in sorted order, and for one
/// name the fixture's findings before the not-fixture's.
pub open spec fn malformed_spec(m: Manifest) -> Seq<(Seq<char>, Seq<char>)> {
    problems_over(m, sorted_of(|q: Seq<char>| named(m, q)))
}

/// The fixtures, in name order, whose recorded version is `unknown`.
pub open spec fn unknown_names(e: Seq<(String, crate::provenance::manifest::FixtureEntry)>) -> Seq<
    Seq<char>,
>
    decreases e.len(),
{
    if e.len() == 0 {
        Seq::empty()
    } else {
        let r = unknown_names(e.drop_last());
        if e.last().1.version_spec() == Some(UNKNOWN@) {
            r.push(e.last().0@)
        } else {
            r
        }
    }
}

/// Where a count of `unknown` entries stands against the declared maximum.
pub open spec fn ratchet_spec(max_unknown: Option<usize>, count: usize) -> Ratchet {
    match max_unknown {
        None => Ratchet::Undeclared { count },
        Some(max) => if count > max {
            Ratchet::Exceeded { count, max }
        } else if count < max {
            Ratchet::Slack { count, max }
        } else {
            Ratchet::Held
        },
    }
}

/// Whether the check of `m` against the files `on_disk` passes.
pub open spec fn passes(m: Manifest, on_disk: Seq<Seq<char>>) -> bool {
    &&& missing_spec(m, on_disk).len() == 0
    &&& dangling_spec(m, on_disk).len() == 0
    &&& malformed_spec(m).len() == 0
    &&& m.max_unknown matches Some(max) && max == unknown_names(m.fixtures.entries@).len()
}

/// Whether the manifest describes the directory: every file named and every
/// name a file, every fixture entry well formed and on one list only, every
/// not-fixture with a reason, and the ratchet at exactly the number of
/// `unknown` entries.
pub open spec fn describes(m: Manifest, on_disk: Seq<Seq<char>>) -> bool {
    &&& forall|q: Seq<char>| #[trigger] member(on_disk, q) == named(m, q)
    &&& forall|k: Seq<char>| #[trigger]
        m.fixtures.view_map().dom().contains(k) ==> !m.not_fixtures.view_map().dom().contains(k)
            && entry_problem_spec(m.fixtures.view_map()[k]) is None
    &&& forall|k: Seq<char>| #[trigger]
        m.not_fixtures.view_map().dom().contains(k) ==> text::trim(m.not_fixtures.view_map()[k]@).len() > 0
    &&& m.max_unknown matches Some(max) && max == unknown_names(m.fixtures.entries@).len()
}

proof fn lemma_problems_over_empty(m: Manifest, u: Seq<Seq<char>>)
    ensures
        (problems_over(m, u).len() == 0) == (forall|i: int| 0 <= i < u.len() ==> #[trigger] problems_of(m, u[i]).len() == 0),
    decreases u.len(),
{
    if u.len() > 0 {
        lemma_problems_over_empty(m, u.drop_last());
        if problems_over(m, u).len() == 0 {
            assert forall|i: int| 0 <= i < u.len() implies #[trigger] problems_of(m, u[i]).len() == 0 by {
                if i < u.len() - 1 {
                    assert(u[i] == u.drop_last()[i]);
                }
            }
        }
        if forall|i: int| 0 <= i < u.len() ==> #[trigger] problems_of(m, u[i]).len() == 0 {
            assert(problems_of(m, u[u.len() - 1]).len() == 0);
            assert forall|i: int| 0 <= i < u.drop_last().len() implies #[trigger] problems_of(m, u.drop_last()[i]).len() == 0 by {
                assert(u.drop_last()[i] == u[i]);
            }
        }
    }
}

/// The check passes exactly when the manifest describes the directory: no
/// file goes unrecorded, no entry names a file that is gone, no entry is
/// malformed, and the ratchet sits at the number of `unknown` entries.
pub proof fn law_check_passes_exactly_when_the_manifest_describes_the_directory(
    m: Manifest,
    on_disk: Seq<Seq<char>>,
)
    requires
        m.wf(),
    ensures
        passes(m, on_disk) == describes(m, on_disk),
{
    let mp = |q: Seq<char>| member(on_disk, q) && !named(m, q);
    let dp = |q: Seq<char>| named(m, q) && !member(on_disk, q);
    let np = |q: Seq<char>| named(m, q);
    let keys = keys_of(m.fixtures.entries@) + keys_of(m.not_fixtures.entries@);
    assert forall|q: Seq<char>| named(m, q) implies member(keys, q) by {
        lemma_dom_is_keys(m.fixtures.entries@, q);
        lemma_dom_is_keys(m.not_fixtures.entries@, q);
        if member(keys_of(m.fixtures.entries@), q) {
            let j = choose|j: int| 0 <= j < keys_of(m.fixtures.entries@).len() && keys_of(m.fixtures.entries@)[j] == q;
            assert(keys[j] == q);
        } else {
            let j = choose|j: int| 0 <= j < keys_of(m.not_fixtures.entries@).len() && keys_of(m.not_fixtures.entries@)[j] == q;
            assert(keys[keys_of(m.fixtures.entries@).len() + j] == q);
        }
    }
    sortedset::lemma_listing_exists(on_disk, mp);
    sortedset::lemma_listing_exists(keys, dp);
    sortedset::lemma_listing_exists(keys, np);
    let mi = missing_spec(m, on_disk);
    let da = dangling_spec(m, on_disk);
    let u = sorted_of(np);
    assert((mi.len() == 0) == (forall|q: Seq<char>| #[trigger] member(on_disk, q) ==> named(m, q))) by {
        if mi.len() > 0 {
            assert(member(mi, mi[0]));
            assert(mp(mi[0]));
        } else {
            assert forall|q: Seq<char>| #[trigger] member(on_disk, q) implies named(m, q) by {
                assert(member(mi, q) == mp(q));
            }
        }
    }
    assert((da.len() == 0) == (forall|q: Seq<char>| #[trigger] named(m, q) ==> member(on_disk, q))) by {
        if da.len() > 0 {
            assert(member(da, da[0]));
            assert(dp(da[0]));
        } else {
            assert forall|q: Seq<char>| #[trigger] named(m, q) implies member(on_disk, q) by {
                assert(member(da, q) == dp(q));
            }
        }
    }
    lemma_problems_over_empty(m, u);
    let fm = m.fixtures.view_map();
    let nm = m.not_fixtures.view_map();
    let entries_ok = (forall|k: Seq<char>| #[trigger]
        fm.dom().contains(k) ==> !nm.dom().contains(k) && entry_problem_spec(fm[k]) is None)
        && (forall|k: Seq<char>| #[trigger] nm.dom().contains(k) ==> text::trim(nm[k]@).len() > 0);
    assert((malformed_spec(m).len() == 0) == entries_ok) by {
        if malformed_spec(m).len() == 0 {
            assert forall|k: Seq<char>| #[trigger] fm.dom().contains(k) implies !nm.dom().contains(k)
                && entry_problem_spec(fm[k]) is None by {
                assert(member(u, k) == np(k));
                let i = choose|i: int| 0 <= i < u.len() && u[i] == k;
                assert(problems_of(m, u[i]).len() == 0);
            }
            assert forall|k: Seq<char>| #[trigger] nm.dom().contains(k) implies text::trim(nm[k]@).len() > 0 by {
                assert(member(u, k) == np(k));
                let i = choose|i: int| 0 <= i < u.len() && u[i] == k;
                assert(problems_of(m, u[i]).len() == 0);
            }
        }
        if entries_ok {
            assert forall|i: int| 0 <= i < u.len() implies #[trigger] problems_of(m, u[i]).len() == 0 by {
                let k = u[i];
                if fm.dom().contains(k) {
                    assert(!nm.dom().contains(k) && entry_problem_spec(fm[k]) is None);
                }
                if nm.dom().contains(k) {
                    assert(text::trim(nm[k]@).len() > 0);
                }
            }
        }
    }
    if describes(m, on_disk) {
        assert(forall|q: Seq<char>| #[trigger] member(on_disk, q) ==> named(m, q));
        assert(forall|q: Seq<char>| #[trigger] named(m, q) ==> member(on_disk, q)) by {
            assert forall|q: Seq<char>| #[trigger] named(m, q) implies member(on_disk, q) by {
                assert(member(on_disk, q) == named(m, q));
            }
        }
    }
    if passes(m, on_disk) {
        assert forall|q: Seq<char>| #[trigger] member(on_disk, q) == named(m, q) by {
            if member(on_disk, q) {
                assert(named(m, q));
            }
            if named(m, q) {
                assert(member(on_disk, q));
            }
        }
    }
}


/// Each name with `prefix` in front.
pub open spec fn prefixed(prefix: Seq<char>, names: Seq<Seq<char>>) -> Seq<Seq<char>> {
    names.map_values(|n: Seq<char>| prefix + n)
}

/// Each finding as `entry: problem`.
pub open spec fn finding_lines(v: Seq<(Seq<char>, Seq<char>)>) -> Seq<Seq<char>> {
    v.map_values(|f: (Seq<char>, Seq<char>)| f.0 + ": "@ + f.1)
}

/// What the summary says of the ratchet: nothing when it holds, else one line
/// that says what to do.
pub open spec fn ratchet_lines(r: Ratchet) -> Seq<Seq<char>> {
    match r {
        Ratchet::Held => Seq::empty(),
        Ratchet::Exceeded { count, max } => seq![
            text::decimal(count as nat) + " entries record an unknown version, and the manifest allows "@
                + text::decimal(max as nat)
                + ". Re-capture against a known binary rather than raising maxUnknown."@,
        ],
        Ratchet::Slack { count, max } => seq![
            "the manifest allows "@ + text::decimal(max as nat)
                + " unknown entries and there are now "@ + text::decimal(count as nat)
                + ". Lower maxUnknown to "@ + text::decimal(count as nat)
                + " so the number can only keep falling."@,
        ],
        Ratchet::Undeclared { count } => seq![
            "the manifest declares no maxUnknown. There are "@ + text::decimal(count as nat)
                + " unknown entries today, so add \"maxUnknown\": "@ + text::decimal(count as nat)
                + " to lock that in."@,
        ],
    }
}

fn push_prefixed(out: &mut Vec<String>, prefix: &str, names: &Vec<String>)
    ensures
        text::strs(final(out)@) == text::strs(old(out)@) + prefixed(prefix@, text::strs(names@)),
{
    let ghost start = text::strs(out@);
    let mut i: usize = 0;
    while i < names.len()
        invariant
            i <= names.len(),
            text::strs(out@) == start + prefixed(prefix@, text::strs(names@).take(i as int)),
        decreases names.len() - i,
    {
        let ghost before = text::strs(out@);
        let mut line: Vec<char> = Vec::new();
        text::push_str(&mut line, prefix);
        text::push_str(&mut line, names[i].as_str());
        let s = text::string_of(&line);
        out.push(s);
        proof {
            assert(text::strs(out@) =~= before.push(prefix@ + names@[i as int]@));
            assert(prefixed(prefix@, text::strs(names@).take(i + 1)) =~= prefixed(
                prefix@,
                text::strs(names@).take(i as int),
            ).push(prefix@ + names@[i as int]@));
        }
        i = i + 1;
    }
    assert(text::strs(names@).take(names.len() as int) =~= text::strs(names@));
}

fn ratchet_line(r: &Ratchet) -> (v: Vec<String>)
    ensures
        text::strs(v@) == ratchet_lines(*r),
{
    let mut v: Vec<String> = Vec::new();
    let mut line: Vec<char> = Vec::new();
    match r {
        Ratchet::Held => {
            assert(text::strs(v@) =~= ratchet_lines(*r));
            return v;
        },
        Ratchet::Exceeded { count, max } => {
            let c = text::decimal_chars(*count as u64);
            let m = text::decimal_chars(*max as u64);
            text::push_all(&mut line, &c);
            text::push_str(&mut line, " entries record an unknown version, and the manifest allows ");
            text::push_all(&mut line, &m);
            text::push_str(&mut line, ". Re-capture against a known binary rather than raising maxUnknown.");
        },
        Ratchet::Slack { count, max } => {
            let c = text::decimal_chars(*count as u64);
            let m = text::decimal_chars(*max as u64);
            text::push_str(&mut line, "the manifest allows ");
            text::push_all(&mut line, &m);
            text::push_str(&mut line, " unknown entries and there are now ");
            text::push_all(&mut line, &c);
            text::push_str(&mut line, ". Lower maxUnknown to ");
            text::push_all(&mut line, &c);
            text::push_str(&mut line, " so the number can only keep falling.");
        },
        Ratchet::Undeclared { count } => {
            let c = text::decimal_chars(*count as u64);
            text::push_str(&mut line, "the manifest declares no maxUnknown. There are ");
            text::push_all(&mut line, &c);
            text::push_str(&mut line, " unknown entries today, so add \"maxUnknown\": ");
            text::push_all(&mut line, &c);
            text::push_str(&mut line, " to lock that in.");
        },
    }
    let s = text::string_of(&line);
    v.push(s);
    assert(text::strs(v@) =~= ratchet_lines(*r));
    v
}

impl Ratchet {
    /// The name a consumer keys on.
    pub fn name(&self) -> (s: &'static str)
        ensures
            s@ == match self {
                Ratchet::Held => "ok"@,
                Ratchet::Exceeded { .. } => "exceeded"@,
                Ratchet::Slack { .. } => "slack"@,
                Ratchet::Undeclared { .. } => "undeclared"@,
            },
    {
        match self {
            Ratchet::Held => "ok",
            Ratchet::Exceeded { .. } => "exceeded",
            Ratchet::Slack { .. } => "slack",
            Ratchet::Undeclared { .. } => "undeclared",
        }
    }
}

impl CheckReport {
    /// The `maxUnknown` a consumer is shown: the declared cap, which when the
    /// ratchet holds is the number of `unknown` entries, and nothing when the
    /// manifest declared none.
    pub fn max_unknown(&self) -> (m: Option<usize>)
        ensures
            m == match self.ratchet {
                Ratchet::Held => Some(self.unknown@.len() as usize),
                Ratchet::Exceeded { max, .. } => Some(max),
                Ratchet::Slack { max, .. } => Some(max),
                Ratchet::Undeclared { .. } => None::<usize>,
            },
    {
        match self.ratchet {
            Ratchet::Held => Some(self.unknown.len()),
            Ratchet::Exceeded { max, .. } => Some(max),
            Ratchet::Slack { max, .. } => Some(max),
            Ratchet::Undeclared { .. } => None,
        }
    }

    /// No finding at all.
    pub open spec fn ok_spec(&self) -> bool {
        &&& self.missing@.len() == 0
        &&& self.dangling@.len() == 0
        &&& self.malformed@.len() == 0
        &&& self.ratchet is Held
    }

    /// Whether the check passed.
    pub fn ok(&self) -> (b: bool)
        ensures
            b == self.ok_spec(),
    {
        self.missing.len() == 0 && self.dangling.len() == 0 && self.malformed.len() == 0
            && match self.ratchet {
            Ratchet::Held => true,
            _ => false,
        }
    }

    /// The summary, line by line.
    pub open spec fn summary_spec(&self) -> Seq<Seq<char>> {
        prefixed("no provenance entry: "@, text::strs(self.missing@)) + prefixed(
            "entry names a file that is not there: "@,
            text::strs(self.dangling@),
        ) + finding_lines(malformed_view(self.malformed@)) + ratchet_lines(self.ratchet)
    }

    /// Short lines for a human, printed when the check fails: each missing
    /// file, each dangling entry, each finding, then what to do about the
    /// ratchet. The JSON is the interface; this is the error message.
    pub fn summary(&self) -> (lines: Vec<String>)
        ensures
            text::strs(lines@) == self.summary_spec(),
    {
        let mut lines: Vec<String> = Vec::new();
        push_prefixed(&mut lines, "no provenance entry: ", &self.missing);
        push_prefixed(&mut lines, "entry names a file that is not there: ", &self.dangling);
        let ghost start = text::strs(lines@);
        let mut i: usize = 0;
        while i < self.malformed.len()
            invariant
                i <= self.malformed.len(),
                text::strs(lines@) == start + finding_lines(malformed_view(self.malformed@).take(i as int)),
            decreases self.malformed.len() - i,
        {
            let ghost before = text::strs(lines@);
            let f = &self.malformed[i];
            let mut line: Vec<char> = Vec::new();
            text::push_str(&mut line, f.entry.as_str());
            text::push_str(&mut line, ": ");
            text::push_str(&mut line, f.problem.as_str());
            let s = text::string_of(&line);
            lines.push(s);
            proof {
                let mv = malformed_view(self.malformed@);
                assert(mv[i as int] == (f.entry@, f.problem@));
                assert(text::strs(lines@) =~= before.push(f.entry@ + ": "@ + f.problem@));
                assert(finding_lines(mv.take(i + 1)) =~= finding_lines(mv.take(i as int)).push(
                    f.entry@ + ": "@ + f.problem@,
                ));
            }
            i = i + 1;
        }
        assert(malformed_view(self.malformed@).take(self.malformed.len() as int) =~= malformed_view(
            self.malformed@,
        ));
        let r = ratchet_line(&self.ratchet);
        text::push_strings(&mut lines, &r);
        proof {
            assert(text::strs(lines@) =~= self.summary_spec());
        }
        lines
    }
}

proof fn lemma_dom_is_keys<V>(e: Seq<(String, V)>, q: Seq<char>)
    ensures
        map_of(e).dom().contains(q) == member(keys_of(e), q),
{
    if member(keys_of(e), q) {
        let j = choose|j: int| 0 <= j < keys_of(e).len() && keys_of(e)[j] == q;
        assert(e[j].0@ == q);
    }
    if map_of(e).dom().contains(q) {
        let j = choose|j: int| 0 <= j < e.len() && e[j].0@ == q;
        assert(keys_of(e)[j] == q);
    }
}

fn push_keys<V>(all: &mut Vec<Vec<char>>, m: &StrMap<V>)
    ensures
        forall|q: Seq<char>| #[trigger]
            member(text::views(final(all)@), q) == (member(text::views(old(all)@), q) || member(
                keys_of(m.entries@),
                q,
            )),
{
    let ghost start = text::views(all@);
    let mut i: usize = 0;
    while i < m.entries.len()
        invariant
            i <= m.entries.len(),
            text::views(all@) == start + keys_of(m.entries@).take(i as int),
        decreases m.entries.len() - i,
    {
        let ghost before = text::views(all@);
        let k = text::chars_of_string(&m.entries[i].0);
        all.push(k);
        assert(text::views(all@) =~= before.push(k@));
        assert(keys_of(m.entries@)[i as int] == k@);
        assert(keys_of(m.entries@).take(i + 1) =~= keys_of(m.entries@).take(i as int).push(k@));
        assert(text::views(all@) =~= start + keys_of(m.entries@).take(i + 1));
        i = i + 1;
    }
    assert(keys_of(m.entries@).take(m.entries.len() as int) =~= keys_of(m.entries@));
    assert forall|q: Seq<char>| #[trigger]
        member(text::views(all@), q) == (member(start, q) || member(keys_of(m.entries@), q)) by {
        let ks = keys_of(m.entries@);
        let a = text::views(all@);
        assert(a =~= start + ks);
        if member(a, q) {
            let j = choose|j: int| 0 <= j < a.len() && a[j] == q;
            if j < start.len() {
                assert(start[j] == q);
            } else {
                assert(ks[j - start.len()] == q);
            }
        }
        if member(start, q) {
            let j = choose|j: int| 0 <= j < start.len() && start[j] == q;
            assert(a[j] == q);
        }
        if member(ks, q) {
            let j = choose|j: int| 0 <= j < ks.len() && ks[j] == q;
            assert(a[start.len() + j] == q);
        }
    }
}

fn push_finding(v: &mut Vec<Malformed>, entry: &String, problem: String)
    ensures
        malformed_view(final(v)@) == malformed_view(old(v)@).push((entry@, problem@)),
{
    let ghost before = malformed_view(v@);
    v.push(Malformed { entry: entry.clone(), problem });
    assert(malformed_view(v@) =~= before.push((entry@, problem@)));
}

/// Compares a manifest against the files beside it.
///
/// `on_disk` comes from `walk_fixtures`, so this stays pure and needs no
/// filesystem. Every list comes back sorted.
pub fn check(manifest: &Manifest, on_disk: &[String]) -> (r: CheckReport)
    requires
        manifest.wf(),
    ensures
        r.fixtures == manifest.fixtures.entries@.len(),
        r.not_fixtures == manifest.not_fixtures.entries@.len(),
        text::strs(r.missing@) == missing_spec(*manifest, text::strs(on_disk@)),
        text::strs(r.dangling@) == dangling_spec(*manifest, text::strs(on_disk@)),
        malformed_view(r.malformed@) == malformed_spec(*manifest),
        text::strs(r.unknown@) == unknown_names(manifest.fixtures.entries@),
        r.ratchet == ratchet_spec(manifest.max_unknown, r.unknown.len()),
        r.ok_spec() == passes(*manifest, text::strs(on_disk@)),
{
    let ghost m = *manifest;
    let ghost disk = text::strs(on_disk@);
    let disk_chars = text::char_vecs(on_disk);
    let present = sortedset::sorted_unique(&disk_chars);

    let mut all: Vec<Vec<char>> = Vec::new();
    push_keys(&mut all, &manifest.fixtures);
    push_keys(&mut all, &manifest.not_fixtures);
    let names = sortedset::sorted_unique(&all);
    let ghost named_p = |q: Seq<char>| named(m, q);
    proof {
        assert forall|q: Seq<char>| #[trigger] member(text::views(names@), q) == named_p(q) by {
            lemma_dom_is_keys(m.fixtures.entries@, q);
            lemma_dom_is_keys(m.not_fixtures.entries@, q);
        }
        assert(lists(text::views(names@), named_p));
        sortedset::lemma_sorted_of(text::views(names@), named_p);
    }

    let missing = sortedset::sorted_difference(&present, &names);
    let dangling = sortedset::sorted_difference(&names, &present);
    proof {
        let mp = |q: Seq<char>| member(disk, q) && !named(m, q);
        let dp = |q: Seq<char>| named(m, q) && !member(disk, q);
        assert forall|q: Seq<char>| #[trigger] member(text::views(missing@), q) == mp(q) by {
            assert(member(text::views(disk_chars@), q) == member(disk, q));
            assert(member(text::views(names@), q) == named_p(q));
        }
        assert forall|q: Seq<char>| #[trigger] member(text::views(dangling@), q) == dp(q) by {
            assert(member(text::views(disk_chars@), q) == member(disk, q));
            assert(member(text::views(names@), q) == named_p(q));
        }
        assert(lists(text::views(missing@), mp));
        assert(lists(text::views(dangling@), dp));
        sortedset::lemma_sorted_of(text::views(missing@), mp);
        sortedset::lemma_sorted_of(text::views(dangling@), dp);
    }

    let mut malformed: Vec<Malformed> = Vec::new();
    let mut i: usize = 0;
    while i < names.len()
        invariant
            i <= names.len(),
            m == *manifest,
            manifest.wf(),
            malformed_view(malformed@) == problems_over(m, text::views(names@).take(i as int)),
        decreases names.len() - i,
    {
        let ghost before = malformed_view(malformed@);
        let ghost k = names@[i as int]@;
        let key = text::string_of(&names[i]);
        let fe = manifest.fixtures.get(key.as_str());
        let nf = manifest.not_fixtures.get(key.as_str());
        match fe {
            Some(e) => {
                if nf.is_some() {
                    push_finding(&mut malformed, &key, BOTH_LISTS.to_string());
                }
                match entry_problem(e) {
                    Some(p) => {
                        push_finding(&mut malformed, &key, p);
                    },
                    None => {},
                }
            },
            None => {},
        }
        let ghost mid = malformed_view(malformed@);
        assert(mid == before + fixture_problems(m, k));
        match nf {
            Some(why) => {
                let w = text::chars_of_string(why);
                let t = text::trim_exec(&w);
                if t.len() == 0 {
                    push_finding(&mut malformed, &key, NO_REASON.to_string());
                }
            },
            None => {},
        }
        proof {
            assert(malformed_view(malformed@) =~= before + problems_of(m, k));
            let t1 = text::views(names@).take(i + 1);
            assert(t1.drop_last() =~= text::views(names@).take(i as int));
            assert(t1.last() == k);
        }
        i = i + 1;
    }
    assert(text::views(names@).take(names.len() as int) =~= text::views(names@));

    let mut unknown: Vec<String> = Vec::new();
    let mut j: usize = 0;
    while j < manifest.fixtures.entries.len()
        invariant
            j <= manifest.fixtures.entries.len(),
            text::strs(unknown@) == unknown_names(manifest.fixtures.entries@.take(j as int)),
        decreases manifest.fixtures.entries.len() - j,
    {
        let ghost before = text::strs(unknown@);
        let ghost t1 = manifest.fixtures.entries@.take(j + 1);
        assert(t1.drop_last() =~= manifest.fixtures.entries@.take(j as int));
        let entry = &manifest.fixtures.entries[j];
        let is_unknown = match entry.1.version() {
            Some(v) => {
                let vc = text::chars_of_string(v);
                let uc = text::chars_of(UNKNOWN);
                text::chars_eq(&vc, &uc)
            },
            None => false,
        };
        if is_unknown {
            text::push_string(&mut unknown, entry.0.as_str());
        }
        assert(text::strs(unknown@) == unknown_names(t1));
        j = j + 1;
    }
    assert(manifest.fixtures.entries@.take(manifest.fixtures.entries.len() as int)
        =~= manifest.fixtures.entries@);

    let count = unknown.len();
    let ratchet = match manifest.max_unknown {
        None => Ratchet::Undeclared { count },
        Some(max) => if count > max {
            Ratchet::Exceeded { count, max }
        } else if count < max {
            Ratchet::Slack { count, max }
        } else {
            Ratchet::Held
        },
    };
    let missing_s = text::strings_of(&missing);
    let dangling_s = text::strings_of(&dangling);
    CheckReport {
        fixtures: manifest.fixtures.len(),
        not_fixtures: manifest.not_fixtures.len(),
        missing: missing_s,
        dangling: dangling_s,
        malformed,
        unknown,
        ratchet,
    }
}

} // verus!
