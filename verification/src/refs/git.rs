//! Every git command this tool runs, as an argument vector, plus the parser
//! for what comes back.
//!
//! `git grep -n <pattern> <tag>` prefixes every line with `<tag>:`, so a line
//! reads `<tag>:<path>:<line>:<text>`, and exits 1 when nothing matched, which
//! is an answer rather than an error. Nothing here checks anything out: there
//! is no `checkout`, `switch` or `reset` in this file.

use vstd::prelude::*;
use crate::text;

verus! {

/// A local git read, in seconds. A hang guard rather than a budget.
pub const GIT_TIMEOUT_SECS: u64 = 30;

/// A fetch, which is the only git call here that uses the network, in
/// seconds.
pub const FETCH_TIMEOUT_SECS: u64 = 180;

/// One line of `git grep -n <tree-ish>` output, taken apart.
#[derive(Debug, Clone, PartialEq, Eq)]
pub struct Hit {
    pub tag: String,
    pub path: String,
    pub line: u32,
    pub text: String,
}

/// `refs/tags/<tag>^{commit}`, a tag that must resolve to a commit.
pub open spec fn tag_commit(tag: Seq<char>) -> Seq<char> {
    "refs/tags/"@ + tag + "^{commit}"@
}

fn tag_commit_exec(tag: &str) -> (s: String)
    ensures
        s@ == tag_commit(tag@),
{
    let mut v = text::chars_of("refs/tags/");
    text::push_str(&mut v, tag);
    text::push_str(&mut v, "^{commit}");
    text::string_of(&v)
}

/// The arguments that ask whether a tag resolves to a commit.
pub open spec fn tag_exists_args_spec(dir: Seq<char>, tag: Seq<char>) -> Seq<Seq<char>> {
    seq!["-C"@, dir, "rev-parse"@, "-q"@, "--verify"@, tag_commit(tag)]
}

/// `git -C <dir> rev-parse -q --verify refs/tags/<tag>^{commit}`
///
/// `^{commit}` makes this true only for a tag that resolves to a commit, and
/// `-q` keeps it silent so a missing tag is an exit code rather than noise.
pub fn tag_exists_args(dir: &str, tag: &str) -> (a: Vec<String>)
    ensures
        text::strs(a@) == tag_exists_args_spec(dir@, tag@),
{
    let mut a: Vec<String> = Vec::new();
    text::push_string(&mut a, "-C");
    text::push_string(&mut a, dir);
    text::push_string(&mut a, "rev-parse");
    text::push_string(&mut a, "-q");
    text::push_string(&mut a, "--verify");
    let c = tag_commit_exec(tag);
    text::push_string(&mut a, c.as_str());
    assert(text::strs(a@) =~= tag_exists_args_spec(dir@, tag@));
    a
}

/// The arguments that read one file at one tag.
pub open spec fn show_args_spec(dir: Seq<char>, tag: Seq<char>, path: Seq<char>) -> Seq<Seq<char>> {
    seq!["-C"@, dir, "show"@, tag + seq![':'] + path]
}

/// `git -C <dir> show <tag>:<path>`
pub fn show_args(dir: &str, tag: &str, path: &str) -> (a: Vec<String>)
    ensures
        text::strs(a@) == show_args_spec(dir@, tag@, path@),
{
    let mut a: Vec<String> = Vec::new();
    text::push_string(&mut a, "-C");
    text::push_string(&mut a, dir);
    text::push_string(&mut a, "show");
    let mut spec = text::chars_of(tag);
    spec.push(':');
    text::push_str(&mut spec, path);
    assert(spec@ =~= tag@ + seq![':'] + path@);
    let s = text::string_of(&spec);
    text::push_string(&mut a, s.as_str());
    assert(text::strs(a@) =~= show_args_spec(dir@, tag@, path@));
    a
}

/// The arguments of a grep at one tag.
pub open spec fn grep_args_spec(
    dir: Seq<char>,
    tag: Seq<char>,
    pattern: Seq<char>,
    pathspec: Seq<Seq<char>>,
) -> Seq<Seq<char>> {
    seq!["-C"@, dir, "grep"@, "--no-color"@, "-n"@, "-e"@, pattern, tag] + if pathspec.len()
        == 0 {
        Seq::empty()
    } else {
        seq!["--"@] + pathspec
    }
}

/// `git -C <dir> grep --no-color -n -e <pattern> <tag> [-- <pathspec>...]`
///
/// `--no-color` keeps a `color.grep = always` config from putting escapes
/// into every match, and `-e` keeps a pattern beginning with `-` from being
/// read as a flag.
pub fn grep_args(dir: &str, tag: &str, pattern: &str, pathspec: &Vec<String>) -> (a: Vec<String>)
    ensures
        text::strs(a@) == grep_args_spec(dir@, tag@, pattern@, text::strs(pathspec@)),
{
    let mut a: Vec<String> = Vec::new();
    text::push_string(&mut a, "-C");
    text::push_string(&mut a, dir);
    text::push_string(&mut a, "grep");
    text::push_string(&mut a, "--no-color");
    text::push_string(&mut a, "-n");
    text::push_string(&mut a, "-e");
    text::push_string(&mut a, pattern);
    text::push_string(&mut a, tag);
    if pathspec.len() > 0 {
        text::push_string(&mut a, "--");
        text::push_strings(&mut a, pathspec);
    }
    assert(text::strs(a@) =~= grep_args_spec(dir@, tag@, pattern@, text::strs(pathspec@)));
    a
}

/// The arguments of a tag fetch.
pub open spec fn fetch_tags_args_spec(dir: Seq<char>) -> Seq<Seq<char>> {
    seq!["-C"@, dir, "fetch"@, "--tags"@, "--quiet"@, "origin"@]
}

/// `git -C <dir> fetch --tags --quiet origin`
///
/// The only write this tool makes to a clone it does not own, and it writes
/// refs and objects only. No working tree changes and `HEAD` does not move.
pub fn fetch_tags_args(dir: &str) -> (a: Vec<String>)
    ensures
        text::strs(a@) == fetch_tags_args_spec(dir@),
{
    let mut a: Vec<String> = Vec::new();
    text::push_string(&mut a, "-C");
    text::push_string(&mut a, dir);
    text::push_string(&mut a, "fetch");
    text::push_string(&mut a, "--tags");
    text::push_string(&mut a, "--quiet");
    text::push_string(&mut a, "origin");
    assert(text::strs(a@) =~= fetch_tags_args_spec(dir@));
    a
}

/// The arguments that add a detached tree at a tag.
pub open spec fn worktree_add_args_spec(dir: Seq<char>, path: Seq<char>, tag: Seq<char>) -> Seq<Seq<char>> {
    seq!["-C"@, dir, "worktree"@, "add"@, "--detach"@, path, tag]
}

/// `git -C <dir> worktree add --detach <path> <tag>`
pub fn worktree_add_args(dir: &str, path: &str, tag: &str) -> (a: Vec<String>)
    ensures
        text::strs(a@) == worktree_add_args_spec(dir@, path@, tag@),
{
    let mut a: Vec<String> = Vec::new();
    text::push_string(&mut a, "-C");
    text::push_string(&mut a, dir);
    text::push_string(&mut a, "worktree");
    text::push_string(&mut a, "add");
    text::push_string(&mut a, "--detach");
    text::push_string(&mut a, path);
    text::push_string(&mut a, tag);
    assert(text::strs(a@) =~= worktree_add_args_spec(dir@, path@, tag@));
    a
}

/// The arguments that remove a tree.
pub open spec fn worktree_remove_args_spec(dir: Seq<char>, path: Seq<char>) -> Seq<Seq<char>> {
    seq!["-C"@, dir, "worktree"@, "remove"@, path]
}

/// `git -C <dir> worktree remove <path>`
pub fn worktree_remove_args(dir: &str, path: &str) -> (a: Vec<String>)
    ensures
        text::strs(a@) == worktree_remove_args_spec(dir@, path@),
{
    let mut a: Vec<String> = Vec::new();
    text::push_string(&mut a, "-C");
    text::push_string(&mut a, dir);
    text::push_string(&mut a, "worktree");
    text::push_string(&mut a, "remove");
    text::push_string(&mut a, path);
    assert(text::strs(a@) =~= worktree_remove_args_spec(dir@, path@));
    a
}

/// The arguments that read where a tree is and where its tag is.
pub open spec fn worktree_head_args_spec(path: Seq<char>, tag: Seq<char>) -> Seq<Seq<char>> {
    seq!["-C"@, path, "rev-parse"@, "HEAD"@, tag_commit(tag)]
}

/// `git -C <path> rev-parse HEAD refs/tags/<tag>^{commit}`
///
/// Two shas on two lines: what the worktree is actually checked out at, and
/// what the tag resolves to right now.
pub fn worktree_head_args(path: &str, tag: &str) -> (a: Vec<String>)
    ensures
        text::strs(a@) == worktree_head_args_spec(path@, tag@),
{
    let mut a: Vec<String> = Vec::new();
    text::push_string(&mut a, "-C");
    text::push_string(&mut a, path);
    text::push_string(&mut a, "rev-parse");
    text::push_string(&mut a, "HEAD");
    let c = tag_commit_exec(tag);
    text::push_string(&mut a, c.as_str());
    assert(text::strs(a@) =~= worktree_head_args_spec(path@, tag@));
    a
}

/// A hit as plain values: tag, path, line number, text.
pub open spec fn hit_view(h: Hit) -> (Seq<char>, Seq<char>, u32, Seq<char>) {
    (h.tag@, h.path@, h.line, h.text@)
}

/// What `parse_hit` reads out of one line: after `<tag>:`, the path up to
/// the next colon, then the line number up to the colon after it, then
/// everything left as the text.
pub open spec fn parse_hit_spec(tag: Seq<char>, line: Seq<char>) -> Option<
    (Seq<char>, Seq<char>, u32, Seq<char>),
> {
    let prefix = tag.push(':');
    if !text::starts_with(line, prefix) {
        None
    } else {
        let rest = line.skip(prefix.len() as int);
        match text::index_of_from(rest, ':', 0) {
            None => None,
            Some(i) => {
                let path = rest.take(i);
                let rest2 = rest.skip(i + 1);
                match text::index_of_from(rest2, ':', 0) {
                    None => None,
                    Some(j) => match text::parse_u32_spec(rest2.take(j)) {
                        None => None,
                        Some(n) => Some((tag, path, n, rest2.skip(j + 1))),
                    },
                }
            },
        }
    }
}

/// Parses one line of `git grep -n <tree-ish>` output, on characters.
pub fn parse_hit_chars(tag: &Vec<char>, line: &Vec<char>) -> (r: Option<Hit>)
    ensures
        match (r, parse_hit_spec(tag@, line@)) {
            (Some(h), Some(v)) => hit_view(h) == v,
            (None, None) => true,
            _ => false,
        },
{
    let mut prefix = tag.clone();
    prefix.push(':');
    if !text::starts_with_exec(line, &prefix) {
        return None;
    }
    let rest = text::slice(line, prefix.len(), line.len());
    assert(rest@ == line@.skip(prefix@.len() as int));
    let i = match text::index_of_exec(&rest, ':', 0) {
        Some(i) => i,
        None => return None,
    };
    let path = text::slice(&rest, 0, i);
    let rest2 = text::slice(&rest, i + 1, rest.len());
    assert(path@ == rest@.take(i as int));
    assert(rest2@ == rest@.skip(i + 1));
    let j = match text::index_of_exec(&rest2, ':', 0) {
        Some(j) => j,
        None => return None,
    };
    let number = text::slice(&rest2, 0, j);
    assert(number@ == rest2@.take(j as int));
    let n = match text::parse_u32(&number) {
        Some(n) => n,
        None => return None,
    };
    let body = text::slice(&rest2, j + 1, rest2.len());
    assert(body@ == rest2@.skip(j + 1));
    Some(Hit { tag: text::string_of(tag), path: text::string_of(&path), line: n, text: text::string_of(&body) })
}

/// Parses one line of `git grep -n <tree-ish>` output.
///
/// The tag is passed in rather than read off the front, because splitting on
/// the first colon would break on any tag holding one. After the tag and the
/// path, the first colon-delimited field is the line number and everything
/// left is the matched text, colons and all.
pub fn parse_hit(tag: &str, line: &str) -> (r: Option<Hit>)
    ensures
        match (r, parse_hit_spec(tag@, line@)) {
            (Some(h), Some(v)) => hit_view(h) == v,
            (None, None) => true,
            _ => false,
        },
{
    let t = text::chars_of(tag);
    let l = text::chars_of(line);
    parse_hit_chars(&t, &l)
}


proof fn lemma_first_colon(a: Seq<char>, b: Seq<char>, from: int)
    requires
        0 <= from <= a.len(),
        forall|i: int| 0 <= i < a.len() ==> a[i] != ':',
    ensures
        text::index_of_from(a + seq![':'] + b, ':', from) == Some(a.len() as int),
    decreases a.len() - from,
{
    let s = a + seq![':'] + b;
    if from < a.len() {
        assert(s[from] == a[from]);
        lemma_first_colon(a, b, from + 1);
    } else {
        assert(s[from] == ':');
    }
}

/// A line written as `git grep -n` writes a hit, `<tag>:<path>:<line>:<text>`,
/// reads back as that hit, whenever the path holds no colon. The text may
/// hold anything, colons included.
pub proof fn law_a_formatted_hit_reads_back(tag: Seq<char>, path: Seq<char>, line: u32, body: Seq<char>)
    requires
        forall|i: int| 0 <= i < path.len() ==> path[i] != ':',
    ensures
        parse_hit_spec(tag, tag + seq![':'] + path + seq![':'] + text::decimal(line as nat) + seq![':'] + body)
            == Some((tag, path, line, body)),
{
    let d = text::decimal(line as nat);
    let l = tag + seq![':'] + path + seq![':'] + d + seq![':'] + body;
    let prefix = tag.push(':');
    assert(l.take(prefix.len() as int) =~= prefix);
    let rest = l.skip(prefix.len() as int);
    let tail = d + seq![':'] + body;
    assert(rest =~= path + seq![':'] + tail);
    lemma_first_colon(path, tail, 0);
    assert(rest.take(path.len() as int) =~= path);
    let rest2 = rest.skip(path.len() + 1int);
    assert(rest2 =~= tail);
    text::lemma_decimal_reads_back(line as nat);
    assert forall|i: int| 0 <= i < d.len() implies d[i] != ':' by {
        assert(text::is_digit(d[i]));
    }
    lemma_first_colon(d, body, 0);
    assert(rest2.take(d.len() as int) =~= d);
    assert(rest2.skip(d.len() + 1int) =~= body);
    assert(text::is_digit(d[0]));
}

/// A line that does not start with `<tag>:` is not a hit of that tag.
pub proof fn law_a_line_of_another_tag_is_no_hit(tag: Seq<char>, line: Seq<char>)
    requires
        !text::starts_with(line, tag + seq![':']),
    ensures
        parse_hit_spec(tag, line) is None,
{
    assert(tag.push(':') =~= tag + seq![':']);
}

/// The git subcommands that move a checkout's `HEAD` or rewrite its tree.
pub open spec fn moves_head(subcommand: Seq<char>) -> bool {
    ||| subcommand == "checkout"@
    ||| subcommand == "switch"@
    ||| subcommand == "reset"@
    ||| subcommand == "merge"@
    ||| subcommand == "rebase"@
    ||| subcommand == "pull"@
    ||| subcommand == "commit"@
}

/// Every git run this tool makes reads at a tag without moving `HEAD`:
/// each argument vector it builds is `-C <dir>` and then a subcommand that
/// moves nothing, whatever the directory, tag, pattern or path.
pub proof fn law_no_git_run_moves_head(
    dir: Seq<char>,
    tag: Seq<char>,
    pattern: Seq<char>,
    pathspec: Seq<Seq<char>>,
    path: Seq<char>,
)
    ensures
        ({
            let runs = seq![
                tag_exists_args_spec(dir, tag),
                show_args_spec(dir, tag, path),
                grep_args_spec(dir, tag, pattern, pathspec),
                fetch_tags_args_spec(dir),
                worktree_add_args_spec(dir, path, tag),
                worktree_remove_args_spec(dir, path),
                worktree_head_args_spec(path, tag),
            ];
            forall|i: int| 0 <= i < runs.len() ==> (#[trigger] runs[i]).len() > 2 && runs[i][0] == "-C"@
                && !moves_head(runs[i][2])
        }),
{
    reveal_strlit("checkout");
    reveal_strlit("switch");
    reveal_strlit("reset");
    reveal_strlit("merge");
    reveal_strlit("rebase");
    reveal_strlit("pull");
    reveal_strlit("commit");
    reveal_strlit("rev-parse");
    reveal_strlit("show");
    reveal_strlit("grep");
    reveal_strlit("fetch");
    reveal_strlit("worktree");
    let runs = seq![
        tag_exists_args_spec(dir, tag),
        show_args_spec(dir, tag, path),
        grep_args_spec(dir, tag, pattern, pathspec),
        fetch_tags_args_spec(dir),
        worktree_add_args_spec(dir, path, tag),
        worktree_remove_args_spec(dir, path),
        worktree_head_args_spec(path, tag),
    ];
    assert(grep_args_spec(dir, tag, pattern, pathspec)[2] == "grep"@);
    assert(grep_args_spec(dir, tag, pattern, pathspec)[0] == "-C"@);
    assert forall|i: int| 0 <= i < runs.len() implies (#[trigger] runs[i]).len() > 2 && runs[i][0] == "-C"@
        && !moves_head(runs[i][2]) by {
        let w = runs[i][2];
        assert(w == "rev-parse"@ || w == "show"@ || w == "grep"@ || w == "fetch"@ || w == "worktree"@);
        assert("rev-parse"@[0] == 'r' && "show"@[0] == 's' && "grep"@[0] == 'g' && "fetch"@[0] == 'f' && "worktree"@[0] == 'w');
        assert("checkout"@[0] == 'c' && "commit"@[0] == 'c' && "merge"@[0] == 'm' && "pull"@[0] == 'p');
        assert("switch"@[1] == 'w' && "show"@[1] == 'h');
        assert("reset"@[2] == 's' && "rebase"@[2] == 'b' && "rev-parse"@[2] == 'v');
    }
}

} // verus!
