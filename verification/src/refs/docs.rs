//! The Lua API docs, without keeping a copy per version.
//!
//! The installed game ships the whole docs tree at `doc-html/`, so for a
//! version you have installed there is nothing to fetch. For a version you do
//! not have, single files are published, and this cache fills one file at a
//! time and ends up as a sparse `doc-html`.
//!
//! The limit, stated rather than hidden: you cannot search a version nobody
//! has installed, because you cannot grep files you never fetched.

use vstd::prelude::*;
use crate::paths;
use crate::text;

verus! {

/// Where Factorio publishes its docs.
pub const DOCS_HOST: &'static str = "https://lua-api.factorio.com";

/// One file, not one archive, in seconds. A hang guard rather than a budget.
pub const FETCH_TIMEOUT_SECS: u64 = 120;

/// Where a docs file will be read from.
#[derive(Debug, Clone, PartialEq, Eq)]
pub enum DocsSource {
    /// That version is installed, so its own `doc-html` answers. No network.
    Install(String),
    /// Already fetched into this tool's cache.
    Cache(String),
    /// Not here yet.
    Fetch { url: String, into: String },
}

pub open spec fn url_spec(version: Seq<char>, rel: Seq<char>) -> Seq<char> {
    "https://lua-api.factorio.com"@ + seq!['/'] + version + seq!['/'] + rel
}

/// The published URL for one docs file.
pub fn url(version: &str, rel: &str) -> (u: String)
    ensures
        u@ == url_spec(version@, rel@),
{
    let mut v = text::chars_of(DOCS_HOST);
    v.push('/');
    text::push_str(&mut v, version);
    v.push('/');
    text::push_str(&mut v, rel);
    text::string_of(&v)
}

/// A path that can neither escape the cache nor be read by curl as an
/// option: not empty, no leading `/` or `-`, no backslash or colon (Windows
/// path syntax a `/`-split cannot see), and no empty, `.` or `..` component.
pub open spec fn safe_relative_spec(rel: Seq<char>) -> bool {
    &&& rel.len() > 0
    &&& rel[0] != '/'
    &&& rel[0] != '-'
    &&& !text::contains(rel, seq!['\\'])
    &&& !text::contains(rel, seq![':'])
    &&& forall|i: int| 0 <= i < text::split_on(rel, '/').len() ==> {
        let c = #[trigger] text::split_on(rel, '/')[i];
        c.len() > 0 && c != "."@ && c != ".."@
    }
}

/// Rejects a path that could escape the cache or be read by curl as an option.
///
/// The path is joined onto the cache directory and also handed to curl, so it
/// has to be safe for both.
pub fn safe_relative(rel: &str) -> (b: bool)
    ensures
        b == safe_relative_spec(rel@),
{
    let r = text::chars_of(rel);
    if r.len() == 0 || r[0] == '/' || r[0] == '-' {
        return false;
    }
    let mut bs: Vec<char> = Vec::new();
    bs.push('\\');
    let mut colon: Vec<char> = Vec::new();
    colon.push(':');
    assert(bs@ =~= seq!['\\']);
    assert(colon@ =~= seq![':']);
    if text::contains_exec(&r, &bs) || text::contains_exec(&r, &colon) {
        return false;
    }
    let pieces = text::split_on_exec(&r, '/');
    let dot = text::chars_of(".");
    let dots = text::chars_of("..");
    let mut i: usize = 0;
    while i < pieces.len()
        invariant
            i <= pieces.len(),
            text::views(pieces@) == text::split_on(rel@, '/'),
            r@ == rel@,
            dot@ == "."@,
            dots@ == ".."@,
            forall|j: int| 0 <= j < i ==> {
                let c = #[trigger] text::split_on(rel@, '/')[j];
                c.len() > 0 && c != "."@ && c != ".."@
            },
        decreases pieces.len() - i,
    {
        assert(pieces@[i as int]@ == text::split_on(rel@, '/')[i as int]);
        if pieces[i].len() == 0 || text::chars_eq(&pieces[i], &dot) || text::chars_eq(&pieces[i], &dots) {
            return false;
        }
        i = i + 1;
    }
    true
}

/// `<cache>/docs/<version>/<rel...>`.
pub open spec fn cache_path_spec(cache: Seq<char>, version: Seq<char>, rel: Seq<char>) -> Seq<char> {
    paths::join_all(paths::join(paths::join(cache, "docs"@), version), text::split_on(rel, '/'))
}

/// Where a fetched docs file is kept.
///
/// The tree mirrors the docs tree exactly, so a partly filled cache is just a
/// sparse `doc-html` and existing paths resolve inside it.
pub fn cache_path(cache: &str, version: &str, rel: &str) -> (p: String)
    ensures
        p@ == cache_path_spec(cache@, version@, rel@),
{
    let d = paths::join_str(cache, "docs");
    let v = paths::join_str(d.as_str(), version);
    let base = text::chars_of_string(&v);
    let r = text::chars_of(rel);
    let p = paths::join_pieces(&base, &r);
    text::string_of(&p)
}

/// Where a docs file sits inside an install's own `doc-html`.
pub fn install_path(doc_dir: &str, rel: &str) -> (p: String)
    ensures
        p@ == paths::join_all(doc_dir@, text::split_on(rel@, '/')),
{
    let base = text::chars_of(doc_dir);
    let r = text::chars_of(rel);
    let p = paths::join_pieces(&base, &r);
    text::string_of(&p)
}

/// Decides where a docs file comes from. An install first, then the cache,
/// then the network.
///
/// `installed_is_file` says whether `install_path(doc, rel)` is a file, and
/// `cached_is_file` whether `cache_path(cache, version, rel)` is one. The
/// caller looks, because looking is the filesystem's business.
pub fn locate(
    installed_doc_dir: Option<&str>,
    installed_is_file: bool,
    cache: &str,
    version: &str,
    rel: &str,
    cached_is_file: bool,
) -> (s: DocsSource)
    ensures
        match installed_doc_dir {
            Some(doc) if installed_is_file => s matches DocsSource::Install(p) && p@ == paths::join_all(
                doc@,
                text::split_on(rel@, '/'),
            ),
            _ => if cached_is_file {
                s matches DocsSource::Cache(p) && p@ == cache_path_spec(cache@, version@, rel@)
            } else {
                s matches DocsSource::Fetch { url, into } && url@ == url_spec(version@, rel@)
                    && into@ == cache_path_spec(cache@, version@, rel@)
            },
        },
{
    if let Some(doc) = installed_doc_dir {
        if installed_is_file {
            return DocsSource::Install(install_path(doc, rel));
        }
    }
    let cached = cache_path(cache, version, rel);
    if cached_is_file {
        return DocsSource::Cache(cached);
    }
    DocsSource::Fetch { url: url(version, rel), into: cached }
}

/// `curl -fsSL --max-time <n> -o <into> <url>`
///
/// `-f` turns an HTTP error into a non-zero exit rather than a saved error
/// page. `-o` keeps the body out of stdout.
pub fn curl_args(url: &str, into: &str) -> (a: Vec<String>)
    ensures
        text::strs(a@) == seq!["-fsSL"@, "--max-time"@, text::decimal(FETCH_TIMEOUT_SECS as nat), "-o"@, into@, url@],
{
    let mut a: Vec<String> = Vec::new();
    text::push_string(&mut a, "-fsSL");
    text::push_string(&mut a, "--max-time");
    text::push_decimal(&mut a, FETCH_TIMEOUT_SECS);
    text::push_string(&mut a, "-o");
    text::push_string(&mut a, into);
    text::push_string(&mut a, url);
    assert(text::strs(a@) =~= seq!["-fsSL"@, "--max-time"@, text::decimal(FETCH_TIMEOUT_SECS as nat), "-o"@, into@, url@]);
    a
}

/// What a fetch checks before anything is written: the version must be a
/// usable tag, since it is joined onto the cache exactly as the path is, and
/// the path must be safe.
pub open spec fn fetch_check_spec(version: Seq<char>, rel: Seq<char>) -> Result<(), Seq<char>> {
    if !crate::refs::valid_tag_spec(version) {
        Err(version + " is not a usable version"@)
    } else if !safe_relative_spec(rel) {
        Err(rel + " is not a usable docs path"@)
    } else {
        Ok(())
    }
}

/// Checks a fetch's version and path before anything touches the disk.
pub fn fetch_check(version: &str, rel: &str) -> (r: Result<(), String>)
    ensures
        match (r, fetch_check_spec(version@, rel@)) {
            (Ok(()), Ok(())) => true,
            (Err(m), Err(w)) => m@ == w,
            _ => false,
        },
{
    if !crate::refs::valid_tag(version) {
        let mut v = text::chars_of(version);
        text::push_str(&mut v, " is not a usable version");
        return Err(text::string_of(&v));
    }
    if !safe_relative(rel) {
        let mut v = text::chars_of(rel);
        text::push_str(&mut v, " is not a usable docs path");
        return Err(text::string_of(&v));
    }
    Ok(())
}

/// Where a download goes before it is complete: the final path with `.part`
/// appended, so `runtime-api.json` becomes `runtime-api.json.part` and two
/// versions of a file never share a partial download.
pub fn part_path(final_path: &str) -> (p: String)
    ensures
        p@ == final_path@ + ".part"@,
{
    let mut v = text::chars_of(final_path);
    text::push_str(&mut v, ".part");
    text::string_of(&v)
}

/// What a curl run amounts to: success on exit 0, otherwise an error naming
/// the URL and what curl printed on stderr. The exit code itself is not
/// turned into words, because curl's exits do not match its manual.
pub fn fetch_outcome(url: &str, out: &crate::spawn::SpawnResult) -> (r: Result<(), String>)
    ensures
        out.exit_code == Some(0i32) <==> r is Ok,
        r matches Err(m) ==> m@ == "could not fetch "@ + url@ + ": "@ + text::trim(out.stderr@),
{
    if out.exit_code == Some(0i32) {
        return Ok(());
    }
    let mut v = text::chars_of("could not fetch ");
    text::push_str(&mut v, url);
    text::push_str(&mut v, ": ");
    let e = text::chars_of_string(&out.stderr);
    let t = text::trim_exec(&e);
    text::push_all(&mut v, &t);
    Err(text::string_of(&v))
}

/// A documentation path that could leave the cache or reach curl as an
/// option is refused: an empty one, an absolute one, one starting with `-`,
/// one holding `\\` or `:`, and one with an empty, `.` or `..` component.
pub proof fn law_a_safe_path_stays_inside(rel: Seq<char>, i: int)
    ensures
        rel.len() == 0 ==> !safe_relative_spec(rel),
        rel.len() > 0 && (rel[0] == '/' || rel[0] == '-') ==> !safe_relative_spec(rel),
        0 <= i < text::split_on(rel, '/').len() && (text::split_on(rel, '/')[i] == ".."@ || text::split_on(rel, '/')[i]
            == "."@ || text::split_on(rel, '/')[i].len() == 0) ==> !safe_relative_spec(rel),
        text::contains(rel, seq!['\\']) || text::contains(rel, seq![':']) ==> !safe_relative_spec(rel),
{
}

} // verus!
