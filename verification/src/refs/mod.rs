//! Reference material: the game's data Lua, and the Lua API docs.
//!
//! Both live outside this repo, and both are shared. `~/GitHub/factorio-data`
//! is one clone with one working tree that several repos read, so nothing in
//! this module ever moves its `HEAD`. Reads happen at a tag, with `git show`
//! and `git grep`. Anything that needs a real directory gets its own worktree
//! under this tool's cache instead.

pub mod docs;
pub mod git;
pub mod grep;
pub mod sync;
pub mod worktree;

use vstd::prelude::*;
use crate::paths;
use crate::text;

verus! {

/// The cache directory for each combination of inputs.
pub open spec fn cache_dir_spec(
    home: Seq<char>,
    override_dir: Option<Seq<char>>,
    xdg_cache: Option<Seq<char>>,
) -> Seq<char> {
    match override_dir {
        Some(dir) => dir,
        None => match xdg_cache {
            Some(dir) => paths::join(dir, "factorio-oracle"@),
            None => paths::join(paths::join(home, ".cache"@), "factorio-oracle"@),
        },
    }
}

pub open spec fn opt_view(v: Option<&str>) -> Option<Seq<char>> {
    match v {
        Some(s) => Some(s@),
        None => None,
    }
}

/// The directory this tool keeps things it can fetch or build again.
///
/// Order: an explicit override, then `XDG_CACHE_HOME`, then `~/.cache`.
pub fn cache_dir(home: &str, override_dir: Option<&str>, xdg_cache: Option<&str>) -> (r: String)
    ensures
        r@ == cache_dir_spec(home@, opt_view(override_dir), opt_view(xdg_cache)),
{
    if let Some(dir) = override_dir {
        return dir.to_string();
    }
    if let Some(dir) = xdg_cache {
        return paths::join_str(dir, "factorio-oracle");
    }
    let c = paths::join_str(home, ".cache");
    paths::join_str(c.as_str(), "factorio-oracle")
}

/// Where the `wube/factorio-data` clone is: the override, or
/// `~/GitHub/factorio-data`.
pub fn data_clone(home: &str, override_dir: Option<&str>) -> (r: String)
    ensures
        r@ == match override_dir {
            Some(dir) => dir@,
            None => paths::join(paths::join(home@, "GitHub"@), "factorio-data"@),
        },
{
    match override_dir {
        Some(dir) => dir.to_string(),
        None => {
            let g = paths::join_str(home, "GitHub");
            paths::join_str(g.as_str(), "factorio-data")
        },
    }
}

/// A character a tag may hold: an ASCII letter or digit, `.`, `_` or `-`.
pub open spec fn tag_char(c: char) -> bool {
    ('a' <= c && c <= 'z') || ('A' <= c && c <= 'Z') || ('0' <= c && c <= '9') || c == '.' || c
        == '_' || c == '-'
}

/// A tag that can neither escape a directory nor be read as a git option.
pub open spec fn valid_tag_spec(tag: Seq<char>) -> bool {
    tag != "."@ && tag != ".."@ && tag.len() > 0 && tag[0] != '-' && forall|i: int|
        0 <= i < tag.len() ==> tag_char(#[trigger] tag[i])
}

/// Rejects a tag that could escape a directory or be read as a git option.
///
/// Two separate problems. A tag joined onto the cache path must not hold a
/// separator or be `.` or `..`. And a tag starting with `-` would be read by
/// git as a flag, which is how an argument vector turns into an instruction.
pub fn valid_tag(tag: &str) -> (b: bool)
    ensures
        b == valid_tag_spec(tag@),
{
    let t = text::chars_of(tag);
    let dot = text::chars_of(".");
    let dots = text::chars_of("..");
    if text::chars_eq(&t, &dot) || text::chars_eq(&t, &dots) {
        return false;
    }
    if t.len() == 0 || t[0] == '-' {
        return false;
    }
    let mut i: usize = 0;
    while i < t.len()
        invariant
            i <= t.len(),
            t@ == tag@,
            forall|j: int| 0 <= j < i ==> tag_char(#[trigger] t@[j]),
        decreases t.len() - i,
    {
        let c = t[i];
        if !(('a' <= c && c <= 'z') || ('A' <= c && c <= 'Z') || ('0' <= c && c <= '9') || c
            == '.' || c == '_' || c == '-') {
            return false;
        }
        i = i + 1;
    }
    true
}

/// A tag that git could read as an option, or that could step out of the
/// cache directory when joined onto it, is refused: an empty tag, `.`, `..`,
/// a tag starting with `-`, and a tag holding a separator (`/` or `\\`),
/// whitespace or a colon. A release tag such as `2.0.73` is accepted.
pub proof fn law_a_usable_tag_cannot_escape(tag: Seq<char>, i: int)
    ensures
        tag.len() == 0 ==> !valid_tag_spec(tag),
        tag == "."@ || tag == ".."@ ==> !valid_tag_spec(tag),
        tag.len() > 0 && tag[0] == '-' ==> !valid_tag_spec(tag),
        0 <= i < tag.len() && (tag[i] == '/' || tag[i] == '\\' || tag[i] == ' ' || tag[i] == ':' || tag[i] == '\n')
            ==> !valid_tag_spec(tag),
        valid_tag_spec(tag) ==> forall|j: int|
            0 <= j < tag.len() ==> (#[trigger] tag[j]) != '/' && tag[j] != '\\' && tag[j] != ':',
{
}

} // verus!
