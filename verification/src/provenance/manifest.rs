//! The provenance manifest: which Factorio version each fixture came from.
//!
//! Provenance lives beside the fixtures rather than inside them. Several
//! fixtures are verbatim copies of the game's own JSON and are asserted key for
//! key, so a metadata key added inside one would be data pollution rather than
//! annotation.
//!
//! Every entry carries two required keys, `factorioVersion` and `evidence`;
//! any other key is carried through untouched and never judged.

use vstd::prelude::*;
use crate::args::opt_text;
use crate::strmap::StrMap;
use crate::text;

verus! {

/// The file name, one per fixture directory.
pub const MANIFEST_NAME: &'static str = "PROVENANCE.json";

/// The version string meaning "nobody wrote it down".
pub const UNKNOWN: &'static str = "unknown";

/// One fixture's entry, as far as the checks read it.
///
/// In the file an entry is a JSON value. The library keeps what it decides
/// on: whether the value is an object, and the two required keys where they
/// hold strings. A key that is absent, or holds anything but a string, is
/// `None`.
#[derive(Debug, Clone, PartialEq, Eq)]
pub struct FixtureEntry {
    pub is_object: bool,
    /// `factorioVersion`, where it is a string.
    pub factorio_version: Option<String>,
    /// `evidence`, where it is a string.
    pub evidence: Option<String>,
}

impl FixtureEntry {
    /// The recorded version, read the way a JSON lookup reads it: nothing
    /// unless the entry is an object holding the key as a string.
    pub open spec fn version_spec(&self) -> Option<Seq<char>> {
        if self.is_object {
            opt_text(self.factorio_version)
        } else {
            None
        }
    }

    /// The recorded version, if the entry has one.
    pub fn version(&self) -> (r: Option<&String>)
        ensures
            (r is Some) == (self.version_spec() is Some),
            r matches Some(v) ==> v@ == self.version_spec()->0,
    {
        if self.is_object {
            match &self.factorio_version {
                Some(v) => Some(v),
                None => None,
            }
        } else {
            None
        }
    }
}

/// A manifest: the comment, the ratchet, and the two lists of names.
#[derive(Debug, Clone)]
pub struct Manifest {
    /// An array of strings, so a long explanation stays readable in a diff.
    pub comment: Vec<String>,
    /// The ratchet: how many entries may say `unknown`.
    ///
    /// `None` means the manifest never declared one, which `check` reports as
    /// its own finding rather than treating as zero. "We allow none" and "we
    /// never decided" are different claims.
    pub max_unknown: Option<usize>,
    /// Keyed by path relative to the manifest, with forward slashes.
    pub fixtures: StrMap<FixtureEntry>,
    /// Files that are deliberately not ground truth, each with its reason.
    pub not_fixtures: StrMap<String>,
}

impl Manifest {
    /// Both lists are maps in key order.
    pub open spec fn wf(&self) -> bool {
        self.fixtures.wf() && self.not_fixtures.wf()
    }
}

/// A part of a version: at least one ASCII digit and nothing else.
pub open spec fn triple_part(p: Seq<char>) -> bool {
    p.len() > 0 && text::all_digits(p)
}

/// `"2.1.14"` read as `(2, 1, 14)`: three parts split at dots, each a plain
/// run of digits that fits in 32 bits. A leading `+`, which std's integer
/// parser would take, is refused.
pub open spec fn parse_triple_spec(version: Seq<char>) -> Option<(u32, u32, u32)> {
    let parts = text::split_on(version, '.');
    if parts.len() == 3 && triple_part(parts[0]) && triple_part(parts[1]) && triple_part(parts[2]) {
        match (
            text::parse_u32_spec(parts[0]),
            text::parse_u32_spec(parts[1]),
            text::parse_u32_spec(parts[2]),
        ) {
            (Some(a), Some(b), Some(c)) => Some((a, b, c)),
            _ => None,
        }
    } else {
        None
    }
}

fn is_triple_part(p: &Vec<char>) -> (b: bool)
    ensures
        b == triple_part(p@),
{
    if p.len() == 0 {
        return false;
    }
    let mut i: usize = 0;
    while i < p.len()
        invariant
            i <= p.len(),
            forall|j: int| 0 <= j < i ==> text::is_digit(#[trigger] p@[j]),
        decreases p.len() - i,
    {
        let c = p[i];
        if !('0' <= c && c <= '9') {
            return false;
        }
        i = i + 1;
    }
    true
}

/// `"2.1.14"` becomes `(2, 1, 14)`. `None` for anything else, `unknown`
/// included.
pub fn parse_triple(version: &str) -> (r: Option<(u32, u32, u32)>)
    ensures
        r == parse_triple_spec(version@),
{
    let v = text::chars_of(version);
    let parts = text::split_on_exec(&v, '.');
    if parts.len() != 3 {
        return None;
    }
    proof {
        assert(parts@[0]@ == text::views(parts@)[0]);
        assert(parts@[1]@ == text::views(parts@)[1]);
        assert(parts@[2]@ == text::views(parts@)[2]);
    }
    if !(is_triple_part(&parts[0]) && is_triple_part(&parts[1]) && is_triple_part(&parts[2])) {
        return None;
    }
    let a = text::parse_u32(&parts[0]);
    let b = text::parse_u32(&parts[1]);
    let c = text::parse_u32(&parts[2]);
    match (a, b, c) {
        (Some(a), Some(b), Some(c)) => Some((a, b, c)),
        _ => None,
    }
}

/// What `format!("{:?}", s)` writes for a string: the text in double quotes,
/// with quotes, backslashes and unprintable characters escaped.
pub uninterp spec fn debug_quoted(s: Seq<char>) -> Seq<char>;

/// Quotes `s` the way Rust's `Debug` does.
#[verifier::external_body]
fn debug_quote(s: &str) -> (r: String)
    ensures
        r@ == debug_quoted(s@),
{
    format!("{:?}", s)
}

/// The finding for a version that is neither a triple nor `unknown`, given
/// the version already quoted.
pub open spec fn version_problem_spec(quoted: Seq<char>) -> Seq<char> {
    "factorioVersion "@ + quoted + " is neither \"a.b.c\" nor \"unknown\""@
}

/// The finding for a version that is neither a triple nor `unknown`.
pub fn version_problem(quoted: &str) -> (r: String)
    ensures
        r@ == version_problem_spec(quoted@),
{
    let mut v: Vec<char> = Vec::new();
    text::push_str(&mut v, "factorioVersion ");
    text::push_str(&mut v, quoted);
    text::push_str(&mut v, " is neither \"a.b.c\" nor \"unknown\"");
    assert(v@ =~= version_problem_spec(quoted@));
    text::string_of(&v)
}

/// What is wrong with one entry, if anything: the first of these that
/// applies, in this order.
pub open spec fn entry_problem_spec(e: FixtureEntry) -> Option<Seq<char>> {
    if !e.is_object {
        Some("entry is not an object"@)
    } else if e.factorio_version is None {
        Some("factorioVersion is missing, or is not a string"@)
    } else if e.factorio_version->0@ != UNKNOWN@ && parse_triple_spec(e.factorio_version->0@) is None {
        Some(version_problem_spec(debug_quoted(e.factorio_version->0@)))
    } else if e.evidence is None {
        Some("evidence is missing, or is not a string"@)
    } else if text::trim(e.evidence->0@).len() == 0 {
        Some("evidence is empty"@)
    } else {
        None
    }
}

/// What is wrong with one entry, or `None` if it is well formed.
///
/// `evidence` is checked for being present and non-blank, and nothing more:
/// its first word is a habit of phrasing, not a field. The grade that is real
/// is `factorioVersion == "unknown"`, and that is what the ratchet counts.
pub fn entry_problem(entry: &FixtureEntry) -> (r: Option<String>)
    ensures
        opt_text(r) == entry_problem_spec(*entry),
{
    if !entry.is_object {
        return Some("entry is not an object".to_string());
    }
    match &entry.factorio_version {
        None => {
            return Some("factorioVersion is missing, or is not a string".to_string());
        },
        Some(v) => {
            let vc = text::chars_of_string(v);
            let uc = text::chars_of(UNKNOWN);
            if !text::chars_eq(&vc, &uc) {
                if parse_triple(v.as_str()).is_none() {
                    let q = debug_quote(v.as_str());
                    return Some(version_problem(q.as_str()));
                }
            }
        },
    }
    match &entry.evidence {
        None => Some("evidence is missing, or is not a string".to_string()),
        Some(e) => {
            let ec = text::chars_of_string(e);
            let t = text::trim_exec(&ec);
            if t.len() == 0 {
                Some("evidence is empty".to_string())
            } else {
                None
            }
        },
    }
}


/// A version written out as `major.minor.patch` reads back as the same three
/// numbers: what `VersionInfo::triple` writes, `parse_triple` undoes.
pub proof fn law_a_written_version_reads_back(major: u32, minor: u32, patch: u32)
    ensures
        parse_triple_spec(crate::version::triple_spec(major, minor, patch)) == Some((major, minor, patch)),
{
    let a = text::decimal(major as nat);
    let b = text::decimal(minor as nat);
    let c = text::decimal(patch as nat);
    text::lemma_decimal_reads_back(major as nat);
    text::lemma_decimal_reads_back(minor as nat);
    text::lemma_decimal_reads_back(patch as nat);
    assert forall|i: int| 0 <= i < a.len() implies a[i] != '.' by {
        assert(text::is_digit(a[i]));
    }
    assert forall|i: int| 0 <= i < b.len() implies b[i] != '.' by {
        assert(text::is_digit(b[i]));
    }
    assert forall|i: int| 0 <= i < c.len() implies c[i] != '.' by {
        assert(text::is_digit(c[i]));
    }
    text::lemma_split_without_separator(a, '.');
    text::lemma_split_append(a, b, '.');
    text::lemma_split_append(a + seq!['.'] + b, c, '.');
    let parts = text::split_on(crate::version::triple_spec(major, minor, patch), '.');
    assert(parts =~= seq![a, b, c]);
    assert(text::is_digit(a[0]) && text::is_digit(b[0]) && text::is_digit(c[0]));
}

} // verus!
