//! Searching one tag, or several, and saying whether the answer moved.
//!
//! The several-tags case is what earns this command: whether `support_range`
//! is the same at two tags is two `git grep` calls here, and moves nothing.

use vstd::prelude::*;
use crate::refs::git::{self, Hit};
use crate::text;

verus! {

/// Every match for one tag.
#[derive(Debug, Clone, PartialEq, Eq)]
pub struct TagResult {
    pub tag: String,
    pub hits: Vec<Hit>,
}

/// Whether the answer moved between the tags that were asked about.
#[derive(Debug, Clone, Copy, PartialEq, Eq, Structural)]
pub enum Verdict {
    /// One tag was asked for, so there is nothing to compare.
    Single,
    /// Every tag matched the same lines in the same files.
    Identical,
    /// At least one tag matched something the others did not.
    Differs,
    /// More than one tag was asked about and none of them matched anything.
    ///
    /// Reported apart from `Identical` on purpose. Two absences agreeing is
    /// not evidence that a value is unchanged, it is evidence the pattern is
    /// absent, and a mistyped pattern must not read as a positive finding.
    NothingMatched,
}

impl Verdict {
    /// The name a consumer keys on.
    pub fn as_str(self) -> (s: &'static str)
        ensures
            s@ == match self {
                Verdict::Single => "single"@,
                Verdict::Identical => "identical"@,
                Verdict::Differs => "differs"@,
                Verdict::NothingMatched => "nothing-matched"@,
            },
    {
        match self {
            Verdict::Single => "single",
            Verdict::Identical => "identical",
            Verdict::Differs => "differs",
            Verdict::NothingMatched => "nothing-matched",
        }
    }
}

#[derive(Debug, Clone, PartialEq, Eq)]
pub struct GrepReport {
    pub pattern: String,
    pub tags: Vec<TagResult>,
    pub verdict: Verdict,
}

/// No tag matched anything.
pub open spec fn all_empty(tags: Seq<TagResult>) -> bool {
    forall|i: int| 0 <= i < tags.len() ==> (#[trigger] tags[i]).hits@.len() == 0
}

impl GrepReport {
    /// True when no tag matched anything at all.
    pub fn empty(&self) -> (b: bool)
        ensures
            b == all_empty(self.tags@),
    {
        let mut i: usize = 0;
        while i < self.tags.len()
            invariant
                i <= self.tags.len(),
                forall|j: int| 0 <= j < i ==> (#[trigger] self.tags@[j]).hits@.len() == 0,
            decreases self.tags.len() - i,
        {
            if self.tags[i].hits.len() > 0 {
                return false;
            }
            i = i + 1;
        }
        true
    }
}

/// The hits among `ls`, in order: every line that parses.
pub open spec fn hits_spec(tag: Seq<char>, ls: Seq<Seq<char>>) -> Seq<
    (Seq<char>, Seq<char>, u32, Seq<char>),
>
    decreases ls.len(),
{
    if ls.len() == 0 {
        Seq::empty()
    } else {
        let r = hits_spec(tag, ls.drop_last());
        match git::parse_hit_spec(tag, ls.last()) {
            Some(h) => r.push(h),
            None => r,
        }
    }
}

/// The hits of a list, as plain values.
pub open spec fn hit_views(h: Seq<Hit>) -> Seq<(Seq<char>, Seq<char>, u32, Seq<char>)> {
    h.map_values(|x: Hit| git::hit_view(x))
}

/// Turns one `git grep` run's stdout into hits, dropping the trailing empty
/// line every successful run ends with.
pub fn hits_from_stdout(tag: &str, stdout: &str) -> (r: Vec<Hit>)
    ensures
        hit_views(r@) == hits_spec(tag@, text::lines(stdout@)),
{
    let t = text::chars_of(tag);
    let s = text::chars_of(stdout);
    let ls = text::lines_exec(&s);
    let mut r: Vec<Hit> = Vec::new();
    let mut i: usize = 0;
    while i < ls.len()
        invariant
            i <= ls.len(),
            t@ == tag@,
            text::views(ls@) == text::lines(stdout@),
            hit_views(r@) == hits_spec(tag@, text::views(ls@).take(i as int)),
        decreases ls.len() - i,
    {
        proof {
            assert(ls@[i as int]@ == text::views(ls@)[i as int]);
            assert(text::views(ls@).take(i + 1).drop_last() =~= text::views(ls@).take(i as int));
        }
        let ghost before = hit_views(r@);
        match git::parse_hit_chars(&t, &ls[i]) {
            Some(h) => {
                r.push(h);
                assert(hit_views(r@) =~= before.push(git::hit_view(h)));
            },
            None => {},
        }
        i = i + 1;
    }
    assert(text::views(ls@).take(ls.len() as int) =~= text::views(ls@));
    r
}

/// The comparison key of a hit: its path and its trimmed text. Line numbers
/// are left out on purpose: a value that moved down the file has not
/// changed.
pub open spec fn key_of(h: Hit) -> (Seq<char>, Seq<char>) {
    (h.path@, text::trim(h.text@))
}

pub open spec fn keys_of(h: Seq<Hit>) -> Seq<(Seq<char>, Seq<char>)> {
    h.map_values(|x: Hit| key_of(x))
}

/// How many times `x` occurs in `s`.
pub open spec fn count<A>(s: Seq<A>, x: A) -> nat
    decreases s.len(),
{
    if s.len() == 0 {
        0
    } else {
        count(s.drop_last(), x) + if s.last() == x {
            1nat
        } else {
            0nat
        }
    }
}

/// Two lists of hits match the same things, in any order and at any line.
pub open spec fn same_keys(a: Seq<Hit>, b: Seq<Hit>) -> bool {
    forall|x: (Seq<char>, Seq<char>)| count(keys_of(a), x) == count(keys_of(b), x)
}

/// Whether the answer moved between the tags.
pub open spec fn verdict_spec(tags: Seq<TagResult>) -> Verdict {
    if tags.len() < 2 {
        Verdict::Single
    } else if all_empty(tags) {
        Verdict::NothingMatched
    } else if forall|i: int| 1 <= i < tags.len() ==> same_keys((#[trigger] tags[i]).hits@, tags[0].hits@) {
        Verdict::Identical
    } else {
        Verdict::Differs
    }
}

proof fn lemma_count_positive<A>(s: Seq<A>, x: A)
    ensures
        count(s, x) > 0 ==> exists|i: int| 0 <= i < s.len() && s[i] == x,
    decreases s.len(),
{
    if s.len() > 0 {
        lemma_count_positive(s.drop_last(), x);
        if count(s.drop_last(), x) > 0 {
            let i = choose|i: int| 0 <= i < s.drop_last().len() && s.drop_last()[i] == x;
            assert(s[i] == x);
        }
    }
}

type Keys = Vec<(Vec<char>, Vec<char>)>;

spec fn kviews(k: Seq<(Vec<char>, Vec<char>)>) -> Seq<(Seq<char>, Seq<char>)> {
    k.map_values(|p: (Vec<char>, Vec<char>)| (p.0@, p.1@))
}

fn keys_exec(hits: &Vec<Hit>) -> (k: Keys)
    ensures
        kviews(k@) == keys_of(hits@),
{
    let mut k: Keys = Vec::new();
    let mut i: usize = 0;
    while i < hits.len()
        invariant
            i <= hits.len(),
            kviews(k@) == keys_of(hits@).take(i as int),
        decreases hits.len() - i,
    {
        let p = text::chars_of_string(&hits[i].path);
        let t = text::chars_of_string(&hits[i].text);
        let tt = text::trim_exec(&t);
        let ghost before = kviews(k@);
        let ghost pv = p@;
        let ghost tv = tt@;
        k.push((p, tt));
        assert(kviews(k@) =~= before.push((pv, tv)));
        assert(keys_of(hits@)[i as int] == key_of(hits@[i as int]));
        assert(keys_of(hits@).take(i + 1) =~= keys_of(hits@).take(i as int).push(key_of(hits@[i as int])));
        i = i + 1;
        assert(kviews(k@) =~= keys_of(hits@).take(i as int));
    }
    assert(keys_of(hits@).take(hits.len() as int) =~= keys_of(hits@));
    k
}

fn count_exec(s: &Keys, x: &(Vec<char>, Vec<char>)) -> (n: usize)
    ensures
        n == count(kviews(s@), (x.0@, x.1@)),
{
    let ghost xv = (x.0@, x.1@);
    let mut n: usize = 0;
    let mut i: usize = 0;
    while i < s.len()
        invariant
            i <= s.len(),
            n <= i,
            xv == (x.0@, x.1@),
            n == count(kviews(s@).take(i as int), xv),
        decreases s.len() - i,
    {
        assert(kviews(s@).take(i + 1).drop_last() =~= kviews(s@).take(i as int));
        assert(kviews(s@).take(i + 1).last() == (s@[i as int].0@, s@[i as int].1@));
        let e0 = text::chars_eq(&s[i].0, &x.0);
        let e1 = text::chars_eq(&s[i].1, &x.1);
        if e0 && e1 {
            n = n + 1;
        } else {
            assert((s@[i as int].0@, s@[i as int].1@) != xv);
        }
        i = i + 1;
    }
    assert(kviews(s@).take(s.len() as int) =~= kviews(s@));
    n
}

fn same_keys_exec(a: &Keys, b: &Keys) -> (r: bool)
    ensures
        r == forall|x: (Seq<char>, Seq<char>)| count(kviews(a@), x) == count(kviews(b@), x),
{
    let mut i: usize = 0;
    while i < a.len()
        invariant
            i <= a.len(),
            forall|j: int| 0 <= j < i ==> count(kviews(a@), #[trigger] kviews(a@)[j]) == count(kviews(b@), kviews(a@)[j]),
        decreases a.len() - i,
    {
        assert(kviews(a@)[i as int] == (a@[i as int].0@, a@[i as int].1@));
        if count_exec(a, &a[i]) != count_exec(b, &a[i]) {
            return false;
        }
        i = i + 1;
    }
    let mut j: usize = 0;
    while j < b.len()
        invariant
            j <= b.len(),
            forall|k: int| 0 <= k < a.len() ==> count(kviews(a@), #[trigger] kviews(a@)[k]) == count(kviews(b@), kviews(a@)[k]),
            forall|k: int| 0 <= k < j ==> count(kviews(a@), #[trigger] kviews(b@)[k]) == count(kviews(b@), kviews(b@)[k]),
        decreases b.len() - j,
    {
        assert(kviews(b@)[j as int] == (b@[j as int].0@, b@[j as int].1@));
        if count_exec(a, &b[j]) != count_exec(b, &b[j]) {
            return false;
        }
        j = j + 1;
    }
    assert forall|x: (Seq<char>, Seq<char>)| count(kviews(a@), x) == count(kviews(b@), x) by {
        lemma_count_positive(kviews(a@), x);
        lemma_count_positive(kviews(b@), x);
        if count(kviews(a@), x) > 0 {
            let k = choose|k: int| 0 <= k < kviews(a@).len() && kviews(a@)[k] == x;
        } else if count(kviews(b@), x) > 0 {
            let k = choose|k: int| 0 <= k < kviews(b@).len() && kviews(b@)[k] == x;
        }
    }
    true
}

/// The comparison key for one tag: every match as its path and its trimmed
/// text.
///
/// Line numbers are deliberately left out. The question a consumer asks is
/// "is this value still the same", and a value that moved down the file has
/// not changed. Two tags agree when their keys match as multisets, whatever
/// order git listed them in.
pub fn fingerprint(result: &TagResult) -> (k: Vec<(String, String)>)
    ensures
        k@.map_values(|p: (String, String)| (p.0@, p.1@)) == keys_of(result.hits@),
{
    let keys = keys_exec(&result.hits);
    let mut k: Vec<(String, String)> = Vec::new();
    let mut i: usize = 0;
    while i < keys.len()
        invariant
            i <= keys.len(),
            kviews(keys@) == keys_of(result.hits@),
            k@.map_values(|p: (String, String)| (p.0@, p.1@)) == kviews(keys@).take(i as int),
        decreases keys.len() - i,
    {
        let a = text::string_of(&keys[i].0);
        let b = text::string_of(&keys[i].1);
        let ghost before = k@.map_values(|p: (String, String)| (p.0@, p.1@));
        let ghost av = a@;
        let ghost bv = b@;
        k.push((a, b));
        assert(k@.map_values(|p: (String, String)| (p.0@, p.1@)) =~= before.push((av, bv)));
        assert(kviews(keys@)[i as int] == (keys@[i as int].0@, keys@[i as int].1@));
        i = i + 1;
        assert(k@.map_values(|p: (String, String)| (p.0@, p.1@)) =~= kviews(keys@).take(i as int));
    }
    assert(kviews(keys@).take(keys.len() as int) =~= kviews(keys@));
    k
}

/// Compares every tag against the first one.
pub fn verdict(tags: &Vec<TagResult>) -> (v: Verdict)
    ensures
        v == verdict_spec(tags@),
{
    if tags.len() < 2 {
        return Verdict::Single;
    }
    let mut i: usize = 0;
    let mut any = false;
    while i < tags.len()
        invariant
            i <= tags.len(),
            !any ==> forall|j: int| 0 <= j < i ==> (#[trigger] tags@[j]).hits@.len() == 0,
            any ==> !all_empty(tags@),
        decreases tags.len() - i,
    {
        if tags[i].hits.len() > 0 {
            any = true;
        }
        i = i + 1;
    }
    if !any {
        return Verdict::NothingMatched;
    }
    let first = keys_exec(&tags[0].hits);
    let mut i: usize = 1;
    while i < tags.len()
        invariant
            1 <= i <= tags.len(),
            kviews(first@) == keys_of(tags@[0].hits@),
            forall|j: int| 1 <= j < i ==> same_keys((#[trigger] tags@[j]).hits@, tags@[0].hits@),
        decreases tags.len() - i,
    {
        let k = keys_exec(&tags[i].hits);
        if !same_keys_exec(&k, &first) {
            return Verdict::Differs;
        }
        i = i + 1;
    }
    Verdict::Identical
}

proof fn lemma_count_member<A>(s: Seq<A>, x: A, a: int)
    requires
        0 <= a < s.len(),
        s[a] == x,
    ensures
        count(s, x) > 0,
    decreases s.len(),
{
    if a < s.len() - 1 {
        lemma_count_member(s.drop_last(), x, a);
    }
}

proof fn lemma_count_absent<A>(s: Seq<A>, x: A)
    requires
        forall|b: int| 0 <= b < s.len() ==> s[b] != x,
    ensures
        count(s, x) == 0,
    decreases s.len(),
{
    if s.len() > 0 {
        let s0 = s.drop_last();
        assert forall|b: int| 0 <= b < s0.len() implies s0[b] != x by {
            assert(s0[b] == s[b]);
        }
        lemma_count_absent(s0, x);
        assert(s.last() == s[s.len() - 1]);
    }
}

/// Where the `a`th hit of a tag was found and what it says, line number
/// aside: its path and its trimmed text.
pub open spec fn found_at(t: TagResult, a: int) -> (Seq<char>, Seq<char>) {
    (t.hits@[a].path@, text::trim(t.hits@[a].text@))
}

/// The `a`th hit of tag `i` matches nothing that tag `j` found.
pub open spec fn unmatched(tags: Seq<TagResult>, i: int, j: int, a: int) -> bool {
    &&& 0 <= a < tags[i].hits@.len()
    &&& forall|b: int|
        #![trigger found_at(tags[j], b)]
        0 <= b < tags[j].hits@.len() ==> found_at(tags[j], b) != found_at(tags[i], a)
}

/// Every tag found the same things as the first, in the same order, line
/// numbers aside.
pub open spec fn all_found_alike(tags: Seq<TagResult>) -> bool {
    forall|i: int|
        #![trigger tags[i]]
        0 <= i < tags.len() ==> tags[i].hits@.len() == tags[0].hits@.len() && forall|a: int|
            #![trigger found_at(tags[i], a)]
            0 <= a < tags[0].hits@.len() ==> found_at(tags[i], a) == found_at(tags[0], a)
}

/// What the verdict answers, for any list of tag results:
/// - one tag (or none) is `Single`;
/// - with two or more, `NothingMatched` exactly when no tag matched anything;
/// - when some tag has a hit whose path and trimmed text match no hit of
///   another tag (that other tag may have matched nothing at all), the answer
///   moved: `Differs`;
/// - when some tag matched, and every tag matched the same paths and
///   trimmed texts in the same order, line numbers aside, it is `Identical`.
pub proof fn law_what_the_verdict_answers(tags: Seq<TagResult>)
    ensures
        (tags.len() < 2) <==> (verdict_spec(tags) == Verdict::Single),
        tags.len() >= 2 ==> ((verdict_spec(tags) == Verdict::NothingMatched) <==> (forall|i: int|
            0 <= i < tags.len() ==> (#[trigger] tags[i]).hits@.len() == 0)),
        forall|i: int, j: int, a: int|
            tags.len() >= 2 && 0 <= i < tags.len() && 0 <= j < tags.len() && #[trigger] unmatched(tags, i, j, a)
                ==> verdict_spec(tags) == Verdict::Differs,
        tags.len() >= 2 && tags[0].hits@.len() > 0 && all_found_alike(tags) ==> verdict_spec(tags)
            == Verdict::Identical,
{
    assert forall|i: int, j: int, a: int|
        tags.len() >= 2 && 0 <= i < tags.len() && 0 <= j < tags.len() && #[trigger] unmatched(tags, i, j, a)
            implies verdict_spec(tags) == Verdict::Differs by {
        let x = key_of(tags[i].hits@[a]);
        let ki = keys_of(tags[i].hits@);
        let kj = keys_of(tags[j].hits@);
        assert(ki[a] == x);
        assert(x == found_at(tags[i], a));
        lemma_count_member(ki, x, a);
        assert forall|b: int| 0 <= b < kj.len() implies kj[b] != x by {
            assert(kj[b] == found_at(tags[j], b));
        }
        lemma_count_absent(kj, x);
        assert(!all_empty(tags)) by {
            assert(tags[i].hits@.len() > 0);
        }
        if verdict_spec(tags) == Verdict::Identical {
            let k0 = keys_of(tags[0].hits@);
            if i != 0 {
                assert(same_keys(tags[i].hits@, tags[0].hits@));
                assert(count(ki, x) == count(k0, x));
            }
            if j != 0 {
                assert(same_keys(tags[j].hits@, tags[0].hits@));
                assert(count(kj, x) == count(k0, x));
            }
        }
    }
    if tags.len() >= 2 && tags[0].hits@.len() > 0 && all_found_alike(tags) {
        assert(!all_empty(tags)) by {
            assert(tags[0].hits@.len() > 0);
        }
        assert forall|i: int| 1 <= i < tags.len() implies same_keys((#[trigger] tags[i]).hits@, tags[0].hits@) by {
            assert(tags[i].hits@.len() == tags[0].hits@.len());
            assert forall|a: int| 0 <= a < tags[0].hits@.len() implies keys_of(tags[i].hits@)[a] == keys_of(
                tags[0].hits@,
            )[a] by {
                assert(found_at(tags[i], a) == found_at(tags[0], a));
            }
            assert(keys_of(tags[i].hits@) =~= keys_of(tags[0].hits@));
        }
    }
}

/// The verdict does not look at line numbers or at the order of the hits:
/// when every tag's hits are replaced by the same matches, moved to other
/// lines or listed in another order, the verdict stays what it was.
pub proof fn law_verdict_ignores_line_numbers_and_order(tags: Seq<TagResult>, moved: Seq<TagResult>)
    requires
        moved.len() == tags.len(),
        forall|i: int|
            0 <= i < tags.len() ==> (#[trigger] moved[i]).hits@.len() == tags[i].hits@.len()
                && same_keys(moved[i].hits@, tags[i].hits@),
    ensures
        verdict_spec(moved) == verdict_spec(tags),
{
    if tags.len() >= 2 {
        assert(all_empty(moved) == all_empty(tags)) by {
            if all_empty(tags) {
                assert forall|i: int| 0 <= i < moved.len() implies (#[trigger] moved[i]).hits@.len() == 0 by {
                    assert(tags[i].hits@.len() == 0);
                }
            }
            if all_empty(moved) {
                assert forall|i: int| 0 <= i < tags.len() implies (#[trigger] tags[i]).hits@.len() == 0 by {
                    assert(moved[i].hits@.len() == 0);
                }
            }
        }
        assert(moved[0].hits@.len() == tags[0].hits@.len());
        let same_tags = forall|i: int| 1 <= i < tags.len() ==> same_keys((#[trigger] tags[i]).hits@, tags[0].hits@);
        let same_moved = forall|i: int| 1 <= i < moved.len() ==> same_keys((#[trigger] moved[i]).hits@, moved[0].hits@);
        if same_tags {
            assert forall|i: int| 1 <= i < moved.len() implies same_keys((#[trigger] moved[i]).hits@, moved[0].hits@) by {
                assert(same_keys(moved[i].hits@, tags[i].hits@));
                assert(same_keys(moved[0].hits@, tags[0].hits@));
                assert(same_keys(tags[i].hits@, tags[0].hits@));
                assert forall|x: (Seq<char>, Seq<char>)| count(keys_of(moved[i].hits@), x) == count(keys_of(moved[0].hits@), x) by {
                    assert(count(keys_of(moved[i].hits@), x) == count(keys_of(tags[i].hits@), x));
                    assert(count(keys_of(tags[i].hits@), x) == count(keys_of(tags[0].hits@), x));
                    assert(count(keys_of(moved[0].hits@), x) == count(keys_of(tags[0].hits@), x));
                }
            }
        }
        if same_moved {
            assert forall|i: int| 1 <= i < tags.len() implies same_keys((#[trigger] tags[i]).hits@, tags[0].hits@) by {
                assert(same_keys(moved[i].hits@, tags[i].hits@));
                assert(same_keys(moved[0].hits@, tags[0].hits@));
                assert(same_keys(moved[i].hits@, moved[0].hits@));
                assert forall|x: (Seq<char>, Seq<char>)| count(keys_of(tags[i].hits@), x) == count(keys_of(tags[0].hits@), x) by {
                    assert(count(keys_of(moved[i].hits@), x) == count(keys_of(tags[i].hits@), x));
                    assert(count(keys_of(moved[i].hits@), x) == count(keys_of(moved[0].hits@), x));
                    assert(count(keys_of(moved[0].hits@), x) == count(keys_of(tags[0].hits@), x));
                }
            }
        }
    }
}


// ---------------------------------------------------------------------------
// Running git
// ---------------------------------------------------------------------------

/// The first tag, from position `i` on, that `valid_tag` rejects.
pub open spec fn first_invalid(tags: Seq<String>, i: int) -> Option<int>
    decreases tags.len() - i,
{
    if i < 0 || i >= tags.len() {
        None
    } else if !crate::refs::valid_tag_spec(tags[i]@) {
        Some(i)
    } else {
        first_invalid(tags, i + 1)
    }
}

/// The message for a tag that is not usable.
pub open spec fn bad_tag_message(tag: Seq<char>) -> Seq<char> {
    tag + " is not a usable tag name"@
}

fn bad_tag(tag: &str) -> (m: String)
    ensures
        m@ == bad_tag_message(tag@),
{
    let mut v = text::chars_of(tag);
    text::push_str(&mut v, " is not a usable tag name");
    text::string_of(&v)
}

/// How an exit is named in a message: its code, or `killed`.
pub open spec fn exit_name(code: Option<i32>) -> Seq<char> {
    match code {
        Some(c) => text::signed_decimal(c as int),
        None => "killed"@,
    }
}

/// What one tag's `git grep` run amounts to. Exit 0 is a match and exit 1
/// is no match, both answers; anything else is an error naming the exit and
/// what git printed on stderr.
pub open spec fn tag_result_spec(tag: Seq<char>, code: Option<i32>, stdout: Seq<char>, stderr: Seq<char>) -> Result<Seq<(Seq<char>, Seq<char>, u32, Seq<char>)>, Seq<char>> {
    if code == Some(0i32) || code == Some(1i32) {
        Ok(hits_spec(tag, text::lines(stdout)))
    } else {
        Err("git grep at "@ + tag + " failed (exit "@ + exit_name(code) + "): "@ + text::trim(stderr))
    }
}

/// `git grep` exiting 1 means nothing matched, which is an answer: exits 0
/// and 1 give the hits parsed out of stdout, and any other exit (or a kill)
/// is an error.
pub proof fn law_no_match_is_an_answer(tag: Seq<char>, code: Option<i32>, stdout: Seq<char>, stderr: Seq<char>)
    ensures
        (tag_result_spec(tag, code, stdout, stderr) is Ok) <==> (code == Some(0i32) || code == Some(1i32)),
        code == Some(1i32) || code == Some(0i32) ==> tag_result_spec(tag, code, stdout, stderr) == Ok::<
            _,
            Seq<char>,
        >(hits_spec(tag, text::lines(stdout))),
{
}

/// Turns one tag's `git grep` output into that tag's result.
pub fn tag_result(tag: &str, out: &crate::spawn::SpawnResult) -> (r: Result<TagResult, String>)
    ensures
        match (r, tag_result_spec(tag@, out.exit_code, out.stdout@, out.stderr@)) {
            (Ok(t), Ok(h)) => t.tag@ == tag@ && hit_views(t.hits@) == h,
            (Err(m), Err(w)) => m@ == w,
            _ => false,
        },
{
    match out.exit_code {
        Some(0) | Some(1) => {
            Ok(TagResult { tag: tag.to_string(), hits: hits_from_stdout(tag, out.stdout.as_str()) })
        },
        other => {
            let mut v = text::chars_of("git grep at ");
            text::push_str(&mut v, tag);
            text::push_str(&mut v, " failed (exit ");
            match other {
                Some(c) => {
                    let d = text::signed_decimal_chars(c as i64);
                    text::push_all(&mut v, &d);
                },
                None => text::push_str(&mut v, "killed"),
            }
            text::push_str(&mut v, "): ");
            let e = text::chars_of_string(&out.stderr);
            let t = text::trim_exec(&e);
            text::push_all(&mut v, &t);
            Err(text::string_of(&v))
        },
    }
}

/// What one tag's grep run amounts to, from the runner's answer: the
/// runner's own error, or what git's output amounts to.
pub open spec fn grep_decide(tag: Seq<char>, reply: Result<crate::spawn::SpawnResult, String>) -> Result<Seq<(Seq<char>, Seq<char>, u32, Seq<char>)>, Seq<char>> {
    match reply {
        Ok(out) => tag_result_spec(tag, out.exit_code, out.stdout@, out.stderr@),
        Err(e) => Err(e@),
    }
}

/// The run `c` is the grep of `pattern` at `tag`.
pub open spec fn is_grep_run(c: crate::spawn::Call, clone: Seq<char>, pattern: Seq<char>, pathspec: Seq<Seq<char>>, tag: Seq<char>) -> bool {
    &&& c.0 == "git"@
    &&& c.1 == git::grep_args_spec(clone, tag, pattern, pathspec)
    &&& c.2 == Some(git::GIT_TIMEOUT_SECS)
}

/// The runs made by a search, taken from the record `after` that grew from
/// `before`: one grep per tag, in the order of `tags`, each of the earlier
/// ones answered with hits; what the search returned follows from them.
pub open spec fn search_runs(
    before: Seq<crate::spawn::Call>,
    after: Seq<crate::spawn::Call>,
    clone: Seq<char>,
    pattern: Seq<char>,
    pathspec: Seq<Seq<char>>,
    tags: Seq<Seq<char>>,
    r: Result<GrepReport, String>,
) -> bool {
    let k = after.len() - before.len();
    &&& before.len() <= after.len()
    &&& after.take(before.len() as int) =~= before
    &&& k <= tags.len()
    &&& forall|j: int| 0 <= j < k ==> is_grep_run(#[trigger] after[before.len() + j], clone, pattern, pathspec, tags[j])
    &&& forall|j: int| 0 <= j < k - 1 ==> (grep_decide(tags[j], #[trigger] after[before.len() + j].3) is Ok)
    &&& match r {
        Ok(rep) => k == tags.len() && forall|i: int|
            0 <= i < tags.len() ==> grep_decide(tags[i], #[trigger] after[before.len() + i].3) == Ok::<
                _,
                Seq<char>,
            >(hit_views(rep.tags@[i].hits@)),
        Err(m) => k >= 1 && grep_decide(tags[k - 1], after.last().3) == Err::<
            Seq<(Seq<char>, Seq<char>, u32, Seq<char>)>,
            _,
        >(m@),
    }
}

/// Greps every tag in turn and builds the report.
///
/// `git grep` exits 1 when nothing matched, which is an answer rather than a
/// failure, so only another exit is treated as an error. Every tag is checked
/// before git runs at all, because a tag starting with `-` would reach git
/// as an option.
pub fn search<S: crate::spawn::Spawner>(
    spawner: &mut S,
    clone: &str,
    pattern: &str,
    tags: &Vec<String>,
    pathspec: &Vec<String>,
) -> (r: Result<GrepReport, String>)
    ensures
        match first_invalid(tags@, 0) {
            Some(i) => *final(spawner) == *old(spawner) && (r matches Err(m) && m@ == bad_tag_message(tags@[i]@)),
            None => {
                &&& r matches Ok(rep) ==> {
                    &&& rep.pattern@ == pattern@
                    &&& rep.tags@.len() == tags@.len()
                    &&& rep.verdict == verdict_spec(rep.tags@)
                    &&& forall|i: int| 0 <= i < tags@.len() ==> (#[trigger] rep.tags@[i]).tag@ == tags@[i]@
                }
                &&& old(spawner).records_calls() ==> search_runs(
                    old(spawner).calls(),
                    final(spawner).calls(),
                    clone@,
                    pattern@,
                    text::strs(pathspec@),
                    text::strs(tags@),
                    r,
                )
            },
        },
{
    let mut i: usize = 0;
    while i < tags.len()
        invariant
            i <= tags.len(),
            first_invalid(tags@, 0) == first_invalid(tags@, i as int),
        decreases tags.len() - i,
    {
        if !crate::refs::valid_tag(tags[i].as_str()) {
            assert(first_invalid(tags@, i as int) == Some(i as int));
            return Err(bad_tag(tags[i].as_str()));
        }
        i = i + 1;
    }
    assert(first_invalid(tags@, i as int) is None);
    let mut results: Vec<TagResult> = Vec::new();
    let mut i: usize = 0;
    while i < tags.len()
        invariant
            i <= tags.len(),
            first_invalid(tags@, 0) is None,
            results@.len() == i,
            forall|j: int| 0 <= j < i ==> (#[trigger] results@[j]).tag@ == tags@[j]@,
            old(spawner).records_calls() ==> {
                &&& spawner.records_calls()
                &&& spawner.calls().len() == old(spawner).calls().len() + i
                &&& spawner.calls().take(old(spawner).calls().len() as int) == old(spawner).calls()
                &&& forall|j: int| 0 <= j < i ==> is_grep_run(
                    #[trigger] spawner.calls()[old(spawner).calls().len() + j],
                    clone@,
                    pattern@,
                    text::strs(pathspec@),
                    text::strs(tags@)[j],
                )
                &&& forall|j: int| 0 <= j < i ==> grep_decide(
                    text::strs(tags@)[j],
                    (#[trigger] spawner.calls()[old(spawner).calls().len() + j]).3,
                ) == Ok::<_, Seq<char>>(hit_views(results@[j].hits@))
            },
        decreases tags.len() - i,
    {
        let args = git::grep_args(clone, tags[i].as_str(), pattern, pathspec);
        let ghost log = spawner.calls();
        let ran = spawner.run("git", args.as_slice(), Some(git::GIT_TIMEOUT_SECS));
        proof {
            if old(spawner).records_calls() {
                let n0 = old(spawner).calls().len() as int;
                assert(spawner.calls().take(n0) =~= log.take(n0));
                assert forall|j: int| 0 <= j < i implies #[trigger] spawner.calls()[n0 + j] == log[n0 + j] by {}
                assert(text::strs(tags@)[i as int] == tags@[i as int]@);
            }
        }
        let out = match ran {
            Ok(out) => out,
            Err(e) => return Err(e),
        };
        let t = match tag_result(tags[i].as_str(), &out) {
            Ok(t) => t,
            Err(e) => return Err(e),
        };
        results.push(t);
        i = i + 1;
    }
    let v = verdict(&results);
    let rep = GrepReport { pattern: pattern.to_string(), tags: results, verdict: v };
    Ok(rep)
}

/// What a `git show` run amounts to: the file on exit 0, otherwise an error
/// naming the file and what git printed on stderr.
pub open spec fn show_result_spec(tag: Seq<char>, path: Seq<char>, code: Option<i32>, stdout: Seq<char>, stderr: Seq<char>) -> Result<Seq<char>, Seq<char>> {
    if code == Some(0i32) {
        Ok(stdout)
    } else {
        Err("git show "@ + tag + seq![':'] + path + " failed: "@ + text::trim(stderr))
    }
}

/// Turns a `git show` run into the file it read.
pub fn show_result(tag: &str, path: &str, out: crate::spawn::SpawnResult) -> (r: Result<String, String>)
    ensures
        match (r, show_result_spec(tag@, path@, out.exit_code, out.stdout@, out.stderr@)) {
            (Ok(s), Ok(w)) => s@ == w,
            (Err(m), Err(w)) => m@ == w,
            _ => false,
        },
{
    if out.exit_code == Some(0i32) {
        return Ok(out.stdout);
    }
    let mut v = text::chars_of("git show ");
    text::push_str(&mut v, tag);
    v.push(':');
    text::push_str(&mut v, path);
    text::push_str(&mut v, " failed: ");
    let e = text::chars_of_string(&out.stderr);
    let t = text::trim_exec(&e);
    text::push_all(&mut v, &t);
    Err(text::string_of(&v))
}

/// Reads one file at one tag. `HEAD` does not move.
pub fn show<S: crate::spawn::Spawner>(spawner: &mut S, clone: &str, tag: &str, path: &str) -> (r: Result<String, String>)
    ensures
        !crate::refs::valid_tag_spec(tag@) ==> *final(spawner) == *old(spawner)
            && (r matches Err(m) && m@ == bad_tag_message(tag@)),
        crate::refs::valid_tag_spec(tag@) && old(spawner).records_calls() ==> {
            &&& crate::spawn::one_run(old(spawner).calls(), final(spawner).calls(), "git"@, git::show_args_spec(clone@, tag@, path@), Some(git::GIT_TIMEOUT_SECS))
            &&& crate::spawn::ends_as(
                r,
                final(spawner).calls().last().3,
                |out: crate::spawn::SpawnResult| show_result_spec(tag@, path@, out.exit_code, out.stdout@, out.stderr@),
            )
        },
{
    if !crate::refs::valid_tag(tag) {
        return Err(bad_tag(tag));
    }
    let args = git::show_args(clone, tag, path);
    let out = match spawner.run("git", args.as_slice(), Some(git::GIT_TIMEOUT_SECS)) {
        Ok(out) => out,
        Err(e) => return Err(e),
    };
    show_result(tag, path, out)
}


// ---------------------------------------------------------------------------
// Text output
// ---------------------------------------------------------------------------

/// One hit's line: the tag column when there are several tags, then
/// `path:line:text`.
pub open spec fn hit_line(h: Hit, several: bool) -> Seq<char> {
    (if several {
        h.tag@ + "  "@
    } else {
        Seq::empty()
    }) + h.path@ + seq![':'] + text::decimal(h.line as nat) + seq![':'] + h.text@ + seq!['\n']
}

/// The lines for the first `n` hits.
pub open spec fn hits_text(hits: Seq<Hit>, several: bool, n: int) -> Seq<char>
    decreases n,
{
    if n <= 0 {
        Seq::empty()
    } else {
        hits_text(hits, several, n - 1) + hit_line(hits[n - 1], several)
    }
}

/// One tag's block: its hits, or a `(no match)` line when several tags were
/// asked about and this one matched nothing.
pub open spec fn result_text(r: TagResult, several: bool) -> Seq<char> {
    if r.hits@.len() == 0 && several {
        r.tag@ + "  (no match)\n"@
    } else {
        hits_text(r.hits@, several, r.hits@.len() as int)
    }
}

/// The blocks for the first `n` tags.
pub open spec fn results_text(tags: Seq<TagResult>, several: bool, n: int) -> Seq<char>
    decreases n,
{
    if n <= 0 {
        Seq::empty()
    } else {
        results_text(tags, several, n - 1) + result_text(tags[n - 1], several)
    }
}

/// The names joined with `, `.
pub open spec fn comma_join(names: Seq<Seq<char>>) -> Seq<char>
    decreases names.len(),
{
    if names.len() == 0 {
        Seq::empty()
    } else if names.len() == 1 {
        names[0]
    } else {
        comma_join(names.drop_last()) + ", "@ + names.last()
    }
}

/// The names as a sentence: `a, b and c`, or the one name alone.
pub open spec fn sentence(names: Seq<Seq<char>>) -> Seq<char> {
    if names.len() >= 2 {
        comma_join(names.drop_last()) + " and "@ + names.last()
    } else if names.len() == 1 {
        names[0]
    } else {
        Seq::empty()
    }
}

pub open spec fn tag_names(tags: Seq<TagResult>) -> Seq<Seq<char>> {
    tags.map_values(|t: TagResult| t.tag@)
}

/// The closing line for several tags.
pub open spec fn verdict_line(v: Verdict, joined: Seq<char>) -> Seq<char> {
    match v {
        Verdict::Differs => "differs between "@ + joined + seq!['\n'],
        Verdict::NothingMatched => "nothing matched at any of "@ + joined + seq!['\n'],
        Verdict::Identical | Verdict::Single => "identical across "@ + joined + seq!['\n'],
    }
}

/// The whole text `render` produces.
pub open spec fn render_spec(report: GrepReport) -> Seq<char> {
    let several = report.tags@.len() > 1;
    results_text(report.tags@, several, report.tags@.len() as int) + if several {
        seq!['\n'] + verdict_line(report.verdict, sentence(tag_names(report.tags@)))
    } else {
        Seq::empty()
    }
}

fn comma_join_exec(names: &Vec<Vec<char>>, n: usize) -> (r: Vec<char>)
    requires
        n <= names.len(),
    ensures
        r@ == comma_join(text::views(names@).take(n as int)),
{
    let mut r: Vec<char> = Vec::new();
    let mut i: usize = 0;
    while i < n
        invariant
            i <= n <= names.len(),
            r@ == comma_join(text::views(names@).take(i as int)),
        decreases n - i,
    {
        proof {
            assert(text::views(names@).take(i + 1).drop_last() =~= text::views(names@).take(i as int));
            assert(names@[i as int]@ == text::views(names@)[i as int]);
        }
        if i > 0 {
            text::push_str(&mut r, ", ");
        } else {
            assert(text::views(names@).take(0) =~= Seq::<Seq<char>>::empty());
        }
        text::push_all(&mut r, &names[i]);
        i = i + 1;
        assert(r@ =~= comma_join(text::views(names@).take(i as int)));
    }
    r
}

fn hit_line_exec(hit: &Hit, several: bool) -> (l: Vec<char>)
    ensures
        l@ == hit_line(*hit, several),
{
    let mut out: Vec<char> = Vec::new();
    if several {
        text::push_str(&mut out, hit.tag.as_str());
        text::push_str(&mut out, "  ");
    }
    text::push_str(&mut out, hit.path.as_str());
    out.push(':');
    let d = text::decimal_chars(hit.line as u64);
    text::push_all(&mut out, &d);
    out.push(':');
    text::push_str(&mut out, hit.text.as_str());
    out.push('\n');
    assert(out@ =~= hit_line(*hit, several));
    out
}

/// With one tag, this is `git grep`'s own output with the `<tag>:` prefix
/// removed, so it pipes into anything that already reads grep. With more than
/// one, a tag column is added, because without it the lines cannot be told
/// apart, and a verdict line is appended.
pub fn render(report: &GrepReport) -> (s: String)
    ensures
        s@ == render_spec(*report),
{
    let mut out: Vec<char> = Vec::new();
    let several = report.tags.len() > 1;
    let mut i: usize = 0;
    while i < report.tags.len()
        invariant
            i <= report.tags.len(),
            several == (report.tags@.len() > 1),
            out@ == results_text(report.tags@, several, i as int),
        decreases report.tags.len() - i,
    {
        let result = &report.tags[i];
        let ghost start = out@;
        if result.hits.len() == 0 && several {
            text::push_str(&mut out, result.tag.as_str());
            text::push_str(&mut out, "  (no match)\n");
        } else {
            let mut j: usize = 0;
            while j < result.hits.len()
                invariant
                    j <= result.hits.len(),
                    out@ == start + hits_text(result.hits@, several, j as int),
                decreases result.hits.len() - j,
            {
                let line = hit_line_exec(&result.hits[j], several);
                text::push_all(&mut out, &line);
                j = j + 1;
                assert(out@ =~= start + hits_text(result.hits@, several, j as int));
            }
        }
        i = i + 1;
        assert(out@ =~= results_text(report.tags@, several, i as int));
    }
    if several {
        let mut names: Vec<Vec<char>> = Vec::new();
        let mut k: usize = 0;
        while k < report.tags.len()
            invariant
                k <= report.tags.len(),
                text::views(names@) == tag_names(report.tags@).take(k as int),
            decreases report.tags.len() - k,
        {
            let ghost before = text::views(names@);
            let nm = text::chars_of_string(&report.tags[k].tag);
            let ghost nv = nm@;
            names.push(nm);
            assert(text::views(names@) =~= before.push(nv));
            assert(tag_names(report.tags@)[k as int] == report.tags@[k as int].tag@);
            k = k + 1;
            assert(text::views(names@) =~= tag_names(report.tags@).take(k as int));
        }
        assert(tag_names(report.tags@).take(k as int) =~= tag_names(report.tags@));
        let n = names.len();
        let mut joined = comma_join_exec(&names, n - 1);
        text::push_str(&mut joined, " and ");
        proof {
            assert(names@[n - 1]@ == text::views(names@)[n - 1]);
            assert(text::views(names@).take(n - 1) =~= text::views(names@).drop_last());
        }
        text::push_all(&mut joined, &names[n - 1]);
        assert(joined@ =~= sentence(tag_names(report.tags@)));
        out.push('\n');
        match report.verdict {
            Verdict::Differs => text::push_str(&mut out, "differs between "),
            Verdict::NothingMatched => text::push_str(&mut out, "nothing matched at any of "),
            Verdict::Identical | Verdict::Single => text::push_str(&mut out, "identical across "),
        }
        text::push_all(&mut out, &joined);
        out.push('\n');
    }
    assert(out@ =~= render_spec(*report));
    text::string_of(&out)
}

} // verus!
