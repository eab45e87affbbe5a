//! Finding Factorio installs and working out where their pieces live.
//!
//! Looking at the disk and running binaries is the caller's. What is decided
//! here is which paths to try, in which order, and which install to pick.

use vstd::prelude::*;
use crate::paths;
use crate::text;
use crate::version::{triple_spec, VersionInfo};

verus! {

/// Whether `std::path::Path` holds two texts to be the same path.
pub uninterp spec fn same_path_spec(a: Seq<char>, b: Seq<char>) -> bool;

/// `Path == Path`: whether two paths are the same, compared by their
/// components, so `/a/b/` and `/a/b` are one path.
///
/// Trusted: the result is std's, named rather than restated; the one fact
/// stated is that equal texts are the same path.
#[verifier::external_body]
fn same_path(a: &str, b: &str) -> (r: bool)
    ensures
        r == same_path_spec(a@, b@),
        a@ == b@ ==> r,
{
    std::path::Path::new(a) == std::path::Path::new(b)
}

/// What `std::path::Path::parent` returns for a path.
pub uninterp spec fn path_parent_spec(p: Seq<char>) -> Option<Seq<char>>;

/// `Path::parent`: the path without its final component, if it has one.
///
/// Trusted: the result is std's, named rather than restated, because
/// `parent` works on components (it folds repeated separators and drops
/// interior `.`), which takes far more than a line to write down.
#[verifier::external_body]
fn path_parent(p: &str) -> (r: Option<String>)
    ensures
        match (r, path_parent_spec(p@)) {
            (Some(q), Some(w)) => q@ == w,
            (None, None) => true,
            _ => false,
        },
{
    match std::path::Path::new(p).parent() {
        Some(q) => Some(q.to_string_lossy().into_owned()),
        None => None,
    }
}

/// The three paths every mode needs from an install.
#[derive(Debug, Clone, PartialEq, Eq)]
pub struct InstallLayout {
    /// What the caller pointed at, kept for reporting.
    pub root: String,
    pub binary: String,
    pub data_dir: String,
    pub doc_dir: String,
}

/// What a root path turned out to be on disk.
#[derive(Debug, Clone, Copy, PartialEq, Eq, Structural)]
pub enum RootKind {
    /// `<root>/Contents` is a directory: a macOS `.app` bundle.
    Bundle,
    /// The root is a file: a path straight to the executable.
    Binary,
    /// Anything else: a plain install directory.
    Directory,
}

/// A candidate's binary, data directory and doc directory.
pub open spec fn cand(b: Seq<char>, d: Seq<char>, h: Seq<char>) -> (Seq<char>, Seq<char>, Seq<char>) {
    (b, d, h)
}

/// The candidates for an executable: the macOS bundle shape, with data two
/// levels up, then the Linux shape, with data three levels up.
pub open spec fn binary_candidates(root: Seq<char>) -> Seq<(Seq<char>, Seq<char>, Seq<char>)> {
    let two = match path_parent_spec(root) {
        Some(p) => path_parent_spec(p),
        None => None,
    };
    let three = match two {
        Some(p) => path_parent_spec(p),
        None => None,
    };
    (match two {
        Some(c) => seq![cand(root, paths::join(c, "data"@), paths::join(c, "doc-html"@))],
        None => Seq::empty(),
    }) + (match three {
        Some(b) => seq![cand(root, paths::join(b, "data"@), paths::join(b, "doc-html"@))],
        None => Seq::empty(),
    })
}

/// The layouts to try for a root, in order.
pub open spec fn candidates_spec(root: Seq<char>, kind: RootKind) -> Seq<(Seq<char>, Seq<char>, Seq<char>)> {
    match kind {
        RootKind::Bundle => seq![
            cand(
                paths::join(root, "Contents/MacOS/factorio"@),
                paths::join(root, "Contents/data"@),
                paths::join(root, "Contents/doc-html"@),
            ),
        ],
        RootKind::Binary => binary_candidates(root),
        RootKind::Directory => seq![
            cand(
                paths::join(root, "bin/x64/factorio.exe"@),
                paths::join(root, "data"@),
                paths::join(root, "doc-html"@),
            ),
            cand(
                paths::join(root, "bin/x64/factorio"@),
                paths::join(root, "data"@),
                paths::join(root, "doc-html"@),
            ),
        ],
    }
}

pub open spec fn triples(v: Seq<(String, String, String)>) -> Seq<(Seq<char>, Seq<char>, Seq<char>)> {
    v.map_values(|t: (String, String, String)| (t.0@, t.1@, t.2@))
}

fn push_candidate(v: &mut Vec<(String, String, String)>, b: String, d: String, h: String)
    ensures
        triples(final(v)@) == triples(old(v)@).push((b@, d@, h@)),
{
    let ghost before = triples(v@);
    let ghost t = (b@, d@, h@);
    v.push((b, d, h));
    assert(triples(v@) =~= before.push(t));
}

/// The layouts to try for a root, in order: binary, data directory, doc
/// directory.
///
/// Two shapes apply to a path straight to the executable, and which one
/// cannot be told from the path alone, so both are offered and the caller
/// keeps whichever has a data directory next to it. Windows and Linux share
/// the plain directory layout and differ only in the binary's name, so both
/// names are offered too.
pub fn layout_candidates(root: &str, kind: RootKind) -> (v: Vec<(String, String, String)>)
    ensures
        triples(v@) == candidates_spec(root@, kind),
{
    let mut v: Vec<(String, String, String)> = Vec::new();
    match kind {
        RootKind::Bundle => {
            push_candidate(
                &mut v,
                paths::join_str(root, "Contents/MacOS/factorio"),
                paths::join_str(root, "Contents/data"),
                paths::join_str(root, "Contents/doc-html"),
            );
        },
        RootKind::Binary => {
            let one = path_parent(root);
            let two = match &one {
                Some(p) => path_parent(p.as_str()),
                None => None,
            };
            let three = match &two {
                Some(p) => path_parent(p.as_str()),
                None => None,
            };
            if let Some(c) = &two {
                push_candidate(&mut v, root.to_string(), paths::join_str(c.as_str(), "data"), paths::join_str(c.as_str(), "doc-html"));
            }
            if let Some(b) = &three {
                push_candidate(&mut v, root.to_string(), paths::join_str(b.as_str(), "data"), paths::join_str(b.as_str(), "doc-html"));
            }
        },
        RootKind::Directory => {
            push_candidate(
                &mut v,
                paths::join_str(root, "bin/x64/factorio.exe"),
                paths::join_str(root, "data"),
                paths::join_str(root, "doc-html"),
            );
            push_candidate(
                &mut v,
                paths::join_str(root, "bin/x64/factorio"),
                paths::join_str(root, "data"),
                paths::join_str(root, "doc-html"),
            );
        },
    }
    assert(triples(v@) =~= candidates_spec(root@, kind));
    v
}

/// The first candidate, from `i` on, that the caller found usable.
pub open spec fn first_usable(n: int, usable: Seq<bool>, i: int) -> Option<int>
    decreases n - i,
{
    if i < 0 || i >= n {
        None
    } else if i < usable.len() && usable[i] {
        Some(i)
    } else {
        first_usable(n, usable, i + 1)
    }
}

/// Every layout tried keeps its docs beside its data: the data directory and
/// the doc directory are `data` and `doc-html`, behind the same relative
/// prefix (none, or `Contents/` in a bundle), joined onto one and the same
/// directory; and a root that is the executable itself is that layout's
/// binary.
pub proof fn law_docs_sit_beside_data(root: Seq<char>, kind: RootKind, i: int)
    requires
        0 <= i < candidates_spec(root, kind).len(),
    ensures
        ({
            let c = candidates_spec(root, kind)[i];
            &&& exists|x: Seq<char>, pre: Seq<char>|
                (pre == Seq::<char>::empty() || pre == "Contents/"@) && c.1 == paths::join(x, pre + "data"@) && c.2
                    == paths::join(x, pre + "doc-html"@)
            &&& kind == RootKind::Binary ==> c.0 == root
        }),
{
    reveal_strlit("Contents");
    reveal_strlit("Contents/data");
    reveal_strlit("Contents/doc-html");
    reveal_strlit("data");
    reveal_strlit("doc-html");
    let c = candidates_spec(root, kind)[i];
    match kind {
        RootKind::Bundle => {
            reveal_strlit("Contents/");
            let pre = "Contents/"@;
            assert(pre + "data"@ =~= "Contents/data"@);
            assert(pre + "doc-html"@ =~= "Contents/doc-html"@);
            assert(c.1 == paths::join(root, pre + "data"@) && c.2 == paths::join(root, pre + "doc-html"@));
        },
        RootKind::Directory => {
            let pre = Seq::<char>::empty();
            assert(pre + "data"@ =~= "data"@ && pre + "doc-html"@ =~= "doc-html"@);
            assert(c.1 == paths::join(root, pre + "data"@) && c.2 == paths::join(root, pre + "doc-html"@));
        },
        RootKind::Binary => {
            let two = match path_parent_spec(root) {
                Some(p) => path_parent_spec(p),
                None => None,
            };
            let three = match two {
                Some(p) => path_parent_spec(p),
                None => None,
            };
            if two is Some && i == 0 {
                let x = two->0;
                let pre = Seq::<char>::empty();
                assert(pre + "data"@ =~= "data"@ && pre + "doc-html"@ =~= "doc-html"@);
                assert(c.1 == paths::join(x, pre + "data"@) && c.2 == paths::join(x, pre + "doc-html"@));
            } else {
                let x = three->0;
                let pre = Seq::<char>::empty();
                assert(pre + "data"@ =~= "data"@ && pre + "doc-html"@ =~= "doc-html"@);
                assert(c.1 == paths::join(x, pre + "data"@) && c.2 == paths::join(x, pre + "doc-html"@));
            }
        },
    }
}

/// Works out an install's layout from a root path, an `.app` bundle, or a path
/// straight to the executable.
///
/// `kind` is what the root is on disk, and `usable[i]` says whether the
/// `i`th of `layout_candidates(root, kind)` has its binary as a file and its
/// data directory as a directory. The first usable candidate wins. The doc
/// directory is not required: a headless build ships no `doc-html`.
pub fn resolve_layout(root: &str, kind: RootKind, usable: &Vec<bool>) -> (r: Option<InstallLayout>)
    ensures
        ({
            let c = candidates_spec(root@, kind);
            match (r, first_usable(c.len() as int, usable@, 0)) {
                (Some(l), Some(i)) => l.root@ == root@ && l.binary@ == c[i].0 && l.data_dir@ == c[i].1
                    && l.doc_dir@ == c[i].2,
                (None, None) => true,
                _ => false,
            }
        }),
{
    let c = layout_candidates(root, kind);
    let mut i: usize = 0;
    while i < c.len()
        invariant
            i <= c.len(),
            triples(c@) == candidates_spec(root@, kind),
            first_usable(c@.len() as int, usable@, 0) == first_usable(c@.len() as int, usable@, i as int),
        decreases c.len() - i,
    {
        if i < usable.len() && usable[i] {
            assert(triples(c@)[i as int] == (c@[i as int].0@, c@[i as int].1@, c@[i as int].2@));
            return Some(InstallLayout {
                root: root.to_string(),
                binary: c[i].0.clone(),
                data_dir: c[i].1.clone(),
                doc_dir: c[i].2.clone(),
            });
        }
        i = i + 1;
    }
    None
}

/// An install that was found, with its version if the binary would run.
#[derive(Debug, Clone)]
pub struct DiscoveredInstall {
    pub layout: InstallLayout,
    /// `None` when the binary could not be executed, which is normal on a
    /// machine of a different architecture.
    pub version: Option<VersionInfo>,
}

/// Consecutive repeats of one path collapsed into the first of them, what
/// `Vec::dedup` does on a list of paths.
pub open spec fn dedup(s: Seq<Seq<char>>) -> Seq<Seq<char>>
    decreases s.len(),
{
    if s.len() <= 1 {
        s
    } else {
        let d = dedup(s.drop_last());
        if same_path_spec(d.last(), s.last()) {
            d
        } else {
            d.push(s.last())
        }
    }
}

/// Every known install location for a home directory, before deduplication.
pub open spec fn known_roots(home: Seq<char>) -> Seq<Seq<char>> {
    seq![
        paths::join(home, "Library/Application Support/Steam/steamapps/common/Factorio/factorio.app"@),
        "/Applications/factorio.app"@,
        paths::join(home, ".steam/steam/steamapps/common/Factorio"@),
        paths::join(home, ".factorio"@),
        "/opt/factorio"@,
        "C:\\Program Files (x86)\\Steam\\steamapps\\common\\Factorio"@,
        "C:\\Program Files\\Factorio"@,
    ]
}

pub open spec fn candidate_roots_spec(home: Seq<char>, env_bin: Option<Seq<char>>) -> Seq<Seq<char>> {
    dedup(
        match env_bin {
            Some(b) => seq![b],
            None => Seq::empty(),
        } + known_roots(home),
    )
}

proof fn lemma_dedup_nonempty(s: Seq<Seq<char>>)
    ensures
        s.len() > 0 ==> dedup(s).len() > 0,
    decreases s.len(),
{
    if s.len() > 1 {
        lemma_dedup_nonempty(s.drop_last());
    }
}

/// `Vec::dedup` on a list of paths: a path the same as the one before it
/// is dropped.
pub fn dedup_strings(v: Vec<String>) -> (r: Vec<String>)
    ensures
        text::strs(r@) == dedup(text::strs(v@)),
{
    let mut r: Vec<String> = Vec::new();
    let mut i: usize = 0;
    while i < v.len()
        invariant
            i <= v.len(),
            text::strs(r@) == dedup(text::strs(v@).take(i as int)),
        decreases v.len() - i,
    {
        let ghost before = text::strs(r@);
        proof {
            assert(text::strs(v@).take(i + 1).drop_last() =~= text::strs(v@).take(i as int));
            lemma_dedup_nonempty(text::strs(v@).take(i as int));
        }
        if r.len() == 0 {
            assert(i == 0);
            r.push(v[i].clone());
            assert(text::strs(r@) =~= dedup(text::strs(v@).take(i + 1)));
        } else {
            assert(before.last() == r@[r.len() - 1]@);
            if !same_path(r[r.len() - 1].as_str(), v[i].as_str()) {
                r.push(v[i].clone());
                assert(text::strs(r@) =~= before.push(v@[i as int]@));
            }
            assert(text::strs(r@) =~= dedup(text::strs(v@).take(i + 1)));
        }
        i = i + 1;
    }
    assert(text::strs(v@).take(v.len() as int) =~= text::strs(v@));
    r
}

/// Every place a Factorio install is known to sit.
///
/// The union of the candidate lists the consumer repos each kept a subset of.
/// All three platforms are listed unconditionally: a path that does not exist
/// simply fails to resolve, and one list means the same build behaves the
/// same everywhere, which matters under WSL. Steam's client is 32-bit, so the
/// 64-bit game lives under the x86 Program Files.
pub fn candidate_roots(home: &str, env_bin: Option<&str>) -> (r: Vec<String>)
    ensures
        text::strs(r@) == candidate_roots_spec(home@, crate::refs::opt_view(env_bin)),
{
    let mut roots: Vec<String> = Vec::new();
    if let Some(bin) = env_bin {
        text::push_string(&mut roots, bin);
    }
    let a = paths::join_str(home, "Library/Application Support/Steam/steamapps/common/Factorio/factorio.app");
    text::push_string(&mut roots, a.as_str());
    text::push_string(&mut roots, "/Applications/factorio.app");
    let b = paths::join_str(home, ".steam/steam/steamapps/common/Factorio");
    text::push_string(&mut roots, b.as_str());
    let c = paths::join_str(home, ".factorio");
    text::push_string(&mut roots, c.as_str());
    text::push_string(&mut roots, "/opt/factorio");
    text::push_string(&mut roots, "C:\\Program Files (x86)\\Steam\\steamapps\\common\\Factorio");
    text::push_string(&mut roots, "C:\\Program Files\\Factorio");
    assert(text::strs(roots@) =~= match crate::refs::opt_view(env_bin) {
        Some(b) => seq![b],
        None => Seq::empty(),
    } + known_roots(home@));
    dedup_strings(roots)
}

/// Whether an install answers to `version`: exactly its `major.minor.patch`,
/// or any install that has a version when none is asked for.
pub open spec fn matches_version_spec(found: DiscoveredInstall, version: Option<Seq<char>>) -> bool {
    match (version, found.version) {
        (Some(want), Some(got)) => triple_spec(got.major, got.minor, got.patch) == want,
        (None, Some(_)) => true,
        _ => false,
    }
}

/// Whether a discovered install answers to `version`.
///
/// An install whose binary would not run has no version, and is never picked:
/// every command here needs the version, either to stamp it or to build a mod
/// that declares it.
pub fn matches_version(found: &DiscoveredInstall, version: Option<&str>) -> (b: bool)
    ensures
        b == matches_version_spec(*found, crate::refs::opt_view(version)),
{
    match (version, &found.version) {
        (Some(want), Some(got)) => {
            let t = got.triple();
            let tc = text::chars_of_string(&t);
            let w = text::chars_of(want);
            text::chars_eq(&tc, &w)
        },
        (None, Some(_)) => true,
        _ => false,
    }
}

/// The first install, from `i` on, that answers to `version`.
pub open spec fn first_match(found: Seq<DiscoveredInstall>, version: Option<Seq<char>>, i: int) -> Option<int>
    decreases found.len() - i,
{
    if i < 0 || i >= found.len() {
        None
    } else if matches_version_spec(found[i], version) {
        Some(i)
    } else {
        first_match(found, version, i + 1)
    }
}

/// Picks one install out of what discovery found: the first that answers to
/// `version`, or with no version given, the first that reported one.
///
/// Discovery itself is the caller's, because it runs binaries. The caller
/// offers `--factorio` ahead of `FACTORIO_BIN` as the extra candidate root,
/// which is what decides which of the two wins.
pub fn select(found: Vec<DiscoveredInstall>, version: Option<&str>) -> (r: Option<DiscoveredInstall>)
    ensures
        match (r, first_match(found@, crate::refs::opt_view(version), 0)) {
            (Some(d), Some(i)) => d == found@[i],
            (None, None) => true,
            _ => false,
        },
{
    let mut i: usize = 0;
    while i < found.len()
        invariant
            i <= found.len(),
            first_match(found@, crate::refs::opt_view(version), 0) == first_match(found@, crate::refs::opt_view(version), i as int),
        decreases found.len() - i,
    {
        if matches_version(&found[i], version) {
            let mut found = found;
            let d = found.swap_remove(i);
            return Some(d);
        }
        i = i + 1;
    }
    None
}

} // verus!
