//! Recording which Factorio version each fixture was captured from, and
//! checking that the record stays honest.
//!
//! Two halves, and the split is the point. `check` needs no Factorio and
//! fails: it is the always-on test that a fixture cannot be committed without
//! saying where it came from. `report` needs a binary and never fails: a
//! fixture captured on 2.1.11 is not wrong because the binary moved on, so
//! deciding whether a gap matters is a human's job.

pub mod check;
pub mod manifest;
pub mod report;

use vstd::prelude::*;
use crate::sortedset;
use crate::sortedset::member;
use crate::strmap::strictly_sorted;
use crate::text;

verus! {

/// Two characters that are the same once ASCII capitals are made small.
pub open spec fn same_letter(a: char, b: char) -> bool {
    a == b || ('A' <= a && a <= 'Z' && (a as u32) + 32 == b as u32) || ('A' <= b && b <= 'Z' && (b
        as u32) + 32 == a as u32)
}

/// What `str::eq_ignore_ascii_case` tests.
pub open spec fn eq_ignore_ascii_case(a: Seq<char>, b: Seq<char>) -> bool {
    a.len() == b.len() && forall|i: int| 0 <= i < a.len() ==> same_letter(#[trigger] a[i], b[i])
}

fn eq_ignore_ascii_case_exec(a: &Vec<char>, b: &str) -> (r: bool)
    ensures
        r == eq_ignore_ascii_case(a@, b@),
{
    let bc = text::chars_of(b);
    if a.len() != bc.len() {
        return false;
    }
    let mut i: usize = 0;
    while i < a.len()
        invariant
            i <= a.len(),
            a.len() == bc.len(),
            bc@ == b@,
            forall|j: int| 0 <= j < i ==> same_letter(#[trigger] a@[j], b@[j]),
        decreases a.len() - i,
    {
        let x = a[i];
        let y = bc[i];
        let same = x == y || ('A' <= x && x <= 'Z' && (x as u32) + 32 == y as u32) || ('A' <= y
            && y <= 'Z' && (y as u32) + 32 == x as u32);
        if !same {
            return false;
        }
        i = i + 1;
    }
    true
}

/// A name that is operating-system detritus rather than something a repo
/// tracks: a dotfile (or dot-directory), or `Thumbs.db` or `desktop.ini` in
/// any case.
pub open spec fn is_skipped_spec(name: Seq<char>) -> bool {
    (name.len() > 0 && name[0] == '.') || eq_ignore_ascii_case(name, "Thumbs.db"@)
        || eq_ignore_ascii_case(name, "desktop.ini"@)
}

/// Whether a file or directory name is left out of the walk.
///
/// `Thumbs.db` and `desktop.ini` are Windows' equivalent of `.DS_Store`, and
/// are compared case-insensitively because Windows filesystems are. The list
/// is deliberately just these names: a skip that costs nothing is how ground
/// truth goes unrecorded.
pub fn is_skipped(name: &str) -> (b: bool)
    ensures
        b == is_skipped_spec(name@),
{
    let n = text::chars_of(name);
    (n.len() > 0 && n[0] == '.') || eq_ignore_ascii_case_exec(&n, "Thumbs.db")
        || eq_ignore_ascii_case_exec(&n, "desktop.ini")
}

/// The path components joined with forward slashes.
pub open spec fn join_slash(c: Seq<Seq<char>>) -> Seq<char>
    decreases c.len(),
{
    if c.len() == 0 {
        Seq::<char>::empty()
    } else if c.len() == 1 {
        c[0]
    } else {
        join_slash(c.drop_last()) + seq!['/'] + c.last()
    }
}

fn join_slash_exec(c: &Vec<String>) -> (r: Vec<char>)
    ensures
        r@ == join_slash(text::strs(c@)),
{
    let mut r: Vec<char> = Vec::new();
    let mut i: usize = 0;
    while i < c.len()
        invariant
            i <= c.len(),
            r@ == join_slash(text::strs(c@).take(i as int)),
        decreases c.len() - i,
    {
        let ghost before = r@;
        let p = text::chars_of_string(&c[i]);
        if i > 0 {
            r.push('/');
        }
        text::push_all(&mut r, &p);
        proof {
            let t = text::strs(c@).take(i + 1);
            assert(t.drop_last() =~= text::strs(c@).take(i as int));
            assert(t.last() == c@[i as int]@);
            if i == 0 {
                assert(r@ =~= t[0]);
            } else {
                assert(r@ =~= before + seq!['/'] + t.last());
            }
        }
        i = i + 1;
    }
    assert(text::strs(c@).take(c.len() as int) =~= text::strs(c@));
    r
}

/// Whether a file found at path `c` (its components, from the fixture root
/// down) is one the manifest has to account for.
pub open spec fn is_recorded_path(c: Seq<Seq<char>>) -> bool {
    (forall|i: int| 0 <= i < c.len() ==> !is_skipped_spec(#[trigger] c[i])) && join_slash(c)
        != manifest::MANIFEST_NAME@
}

/// The fixture keys among the files found, each as a path relative to the
/// root with forward slashes, sorted.
///
/// `found` holds every file under the root as its list of path components.
/// Two exclusions, both deliberate: the manifest itself, which is the record
/// rather than its subject; and any path through a skipped name, so a
/// dot-directory is left out whole. Joining by hand rather than by the
/// platform's separator gives a Windows run and a macOS run the same key.
pub fn walk_fixtures(found: &Vec<Vec<String>>) -> (r: Vec<String>)
    ensures
        strictly_sorted(text::strs(r@)),
        forall|q: Seq<char>| #[trigger]
            member(text::strs(r@), q) == exists|j: int|
                0 <= j < found.len() && is_recorded_path(text::strs(#[trigger] found@[j]@))
                    && join_slash(text::strs(found@[j]@)) == q,
{
    let manifest_name = text::chars_of(manifest::MANIFEST_NAME);
    let mut keys: Vec<Vec<char>> = Vec::new();
    let mut i: usize = 0;
    while i < found.len()
        invariant
            i <= found.len(),
            manifest_name@ == manifest::MANIFEST_NAME@,
            forall|q: Seq<char>| #[trigger]
                member(text::views(keys@), q) == exists|j: int|
                    0 <= j < i && is_recorded_path(text::strs(#[trigger] found@[j]@))
                        && join_slash(text::strs(found@[j]@)) == q,
        decreases found.len() - i,
    {
        let c = &found[i];
        let mut skipped = false;
        let mut k: usize = 0;
        while k < c.len()
            invariant
                k <= c.len(),
                skipped == exists|m: int| 0 <= m < k && is_skipped_spec(#[trigger] text::strs(c@)[m]),
            decreases c.len() - k,
        {
            assert(text::strs(c@)[k as int] == c@[k as int]@);
            if is_skipped(c[k].as_str()) {
                skipped = true;
            }
            k = k + 1;
        }
        let key = join_slash_exec(c);
        let ghost before = text::views(keys@);
        let keep = !skipped && !text::chars_eq(&key, &manifest_name);
        if keep {
            keys.push(key);
        }
        proof {
            let cs = text::strs(c@);
            assert(keep == is_recorded_path(cs));
            assert forall|q: Seq<char>| #[trigger]
                member(text::views(keys@), q) == exists|j: int|
                    0 <= j < i + 1 && is_recorded_path(text::strs(#[trigger] found@[j]@))
                        && join_slash(text::strs(found@[j]@)) == q by {
                let nk = text::views(keys@);
                if keep {
                    assert(nk =~= before.push(key@));
                } else {
                    assert(nk =~= before);
                }
                if member(nk, q) {
                    let m = choose|m: int| 0 <= m < nk.len() && nk[m] == q;
                    if m < before.len() {
                        assert(before[m] == q);
                        assert(member(before, q));
                    } else {
                        assert(found@[i as int]@ == c@);
                    }
                }
                if exists|j: int|
                    0 <= j < i + 1 && is_recorded_path(text::strs(#[trigger] found@[j]@))
                        && join_slash(text::strs(found@[j]@)) == q {
                    let j = choose|j: int|
                        0 <= j < i + 1 && is_recorded_path(text::strs(#[trigger] found@[j]@))
                            && join_slash(text::strs(found@[j]@)) == q;
                    if j < i {
                        assert(member(before, q));
                        let m = choose|m: int| 0 <= m < before.len() && before[m] == q;
                        assert(nk[m] == q);
                    } else {
                        assert(found@[j]@ == c@);
                        assert(nk[nk.len() - 1] == q);
                    }
                }
            }
        }
        i = i + 1;
    }
    let sorted = sortedset::sorted_unique(&keys);
    text::strings_of(&sorted)
}

} // verus!
