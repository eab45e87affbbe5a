//! A real directory tree at a tag, for the tools that need one.
//!
//! `git show` and `git grep` cover most questions, but ripgrep, an editor and
//! a Lua parser all want files on disk. A worktree gives each caller its own
//! tree off one object store. `remove` exists so the entry git records in the
//! shared clone can be put back.

use vstd::prelude::*;
use crate::paths;
use crate::refs::git;
use crate::text;

verus! {

pub open spec fn worktree_path_spec(cache: Seq<char>, tag: Seq<char>) -> Seq<char> {
    paths::join(paths::join(cache, "worktrees"@), tag)
}

/// Where the tree for `tag` goes: one tree per tag, shared by every caller
/// who asks for that tag.
pub fn worktree_path(cache: &str, tag: &str) -> (p: String)
    ensures
        p@ == worktree_path_spec(cache@, tag@),
{
    let w = paths::join_str(cache, "worktrees");
    paths::join_str(w.as_str(), tag)
}

/// What is at a worktree's path before `ensure` acts.
#[derive(Debug, Clone, Copy, PartialEq, Eq, Structural)]
pub enum TreeState {
    /// Nothing is there.
    Missing,
    /// Something is there, and it is not a git checkout.
    NotACheckout,
    /// A git checkout is there.
    Checkout,
}

/// What checking an existing tree amounts to, given the output of
/// `rev-parse HEAD refs/tags/<tag>^{commit}`: the tree is reused only when
/// both shas are there and they agree.
pub open spec fn reuse_spec(path: Seq<char>, tag: Seq<char>, code: Option<i32>, stdout: Seq<char>, stderr: Seq<char>) -> Result<Seq<char>, Seq<char>> {
    if code != Some(0i32) {
        Err("could not check what "@ + path + " is at: "@ + text::trim(stderr))
    } else {
        let head = match text::first_word(stdout) {
            Some(w) => w,
            None => Seq::empty(),
        };
        let wanted = match text::first_word(text::after_first_word(stdout)) {
            Some(w) => w,
            None => Seq::empty(),
        };
        if head.len() == 0 || wanted.len() == 0 {
            Err("could not read two commits out of git rev-parse for "@ + path)
        } else if head != wanted {
            Err(path + " is at "@ + head + " but tag "@ + tag + " is now "@ + wanted
                + ". The tag moved. Run `refs worktree "@ + tag + " --remove` and try again."@)
        } else {
            Ok(path)
        }
    }
}

fn word_or_empty(s: &Vec<char>) -> (w: Vec<char>)
    ensures
        w@ == match text::first_word(s@) {
            Some(x) => x,
            None => Seq::empty(),
        },
{
    match text::first_word_exec(s) {
        Some(w) => w,
        None => Vec::new(),
    }
}

/// Decides whether an existing tree can be reused, from its `rev-parse`.
///
/// Reusing a tree because its directory is named after a tag is trusting a
/// name over its contents. A mismatch is reported, not silently rebuilt: a
/// tag that moved is a finding a human should see.
pub fn reuse_outcome(path: &str, tag: &str, out: &crate::spawn::SpawnResult) -> (r: Result<String, String>)
    ensures
        match (r, reuse_spec(path@, tag@, out.exit_code, out.stdout@, out.stderr@)) {
            (Ok(p), Ok(w)) => p@ == w,
            (Err(m), Err(w)) => m@ == w,
            _ => false,
        },
{
    if out.exit_code != Some(0i32) {
        let mut v = text::chars_of("could not check what ");
        text::push_str(&mut v, path);
        text::push_str(&mut v, " is at: ");
        let e = text::chars_of_string(&out.stderr);
        let t = text::trim_exec(&e);
        text::push_all(&mut v, &t);
        return Err(text::string_of(&v));
    }
    let s = text::chars_of_string(&out.stdout);
    let head = word_or_empty(&s);
    let rest = text::after_first_word_exec(&s);
    let wanted = word_or_empty(&rest);
    if head.len() == 0 || wanted.len() == 0 {
        let mut v = text::chars_of("could not read two commits out of git rev-parse for ");
        text::push_str(&mut v, path);
        return Err(text::string_of(&v));
    }
    if !text::chars_eq(&head, &wanted) {
        let mut v = text::chars_of(path);
        text::push_str(&mut v, " is at ");
        text::push_all(&mut v, &head);
        text::push_str(&mut v, " but tag ");
        text::push_str(&mut v, tag);
        text::push_str(&mut v, " is now ");
        text::push_all(&mut v, &wanted);
        text::push_str(&mut v, ". The tag moved. Run `refs worktree ");
        text::push_str(&mut v, tag);
        text::push_str(&mut v, " --remove` and try again.");
        return Err(text::string_of(&v));
    }
    Ok(path.to_string())
}

/// What a `worktree add` run amounts to: the tree's path on exit 0,
/// otherwise an error naming the tag and what git printed on stderr.
pub open spec fn add_spec(path: Seq<char>, tag: Seq<char>, code: Option<i32>, stderr: Seq<char>) -> Result<Seq<char>, Seq<char>> {
    if code == Some(0i32) {
        Ok(path)
    } else {
        Err("git worktree add "@ + tag + " failed: "@ + text::trim(stderr))
    }
}

/// What a `worktree add` run amounts to.
pub fn add_outcome(path: &str, tag: &str, out: &crate::spawn::SpawnResult) -> (r: Result<String, String>)
    ensures
        match (r, add_spec(path@, tag@, out.exit_code, out.stderr@)) {
            (Ok(p), Ok(w)) => p@ == w,
            (Err(m), Err(w)) => m@ == w,
            _ => false,
        },
{
    if out.exit_code != Some(0i32) {
        let mut v = text::chars_of("git worktree add ");
        text::push_str(&mut v, tag);
        text::push_str(&mut v, " failed: ");
        let e = text::chars_of_string(&out.stderr);
        let t = text::trim_exec(&e);
        text::push_all(&mut v, &t);
        return Err(text::string_of(&v));
    }
    Ok(path.to_string())
}

/// The message for a path that is there and is not a checkout.
pub open spec fn not_a_worktree_message(path: Seq<char>) -> Seq<char> {
    path + " exists but is not a git worktree. Remove it and try again."@
}

/// Returns a real tree at `tag`, making one if it is not there yet.
///
/// `state` is what the caller found at `worktree_path(cache, tag)`. A tree
/// that is there costs one read to confirm its tag; a missing one costs one
/// `worktree add --detach`; anything else there is an error and git is not
/// run at all.
pub fn ensure<S: crate::spawn::Spawner>(
    spawner: &mut S,
    clone: &str,
    cache: &str,
    tag: &str,
    state: TreeState,
) -> (r: Result<String, String>)
    ensures
        state == TreeState::NotACheckout ==> *final(spawner) == *old(spawner)
            && (r matches Err(m) && m@ == not_a_worktree_message(worktree_path_spec(cache@, tag@))),
        state == TreeState::Checkout && old(spawner).records_calls() ==> {
            &&& crate::spawn::one_run(
                old(spawner).calls(),
                final(spawner).calls(),
                "git"@,
                git::worktree_head_args_spec(worktree_path_spec(cache@, tag@), tag@),
                Some(git::GIT_TIMEOUT_SECS),
            )
            &&& crate::spawn::ends_as(
                r,
                final(spawner).calls().last().3,
                |out: crate::spawn::SpawnResult|
                    reuse_spec(worktree_path_spec(cache@, tag@), tag@, out.exit_code, out.stdout@, out.stderr@),
            )
        },
        state == TreeState::Missing && old(spawner).records_calls() ==> {
            &&& crate::spawn::one_run(
                old(spawner).calls(),
                final(spawner).calls(),
                "git"@,
                git::worktree_add_args_spec(clone@, worktree_path_spec(cache@, tag@), tag@),
                Some(git::GIT_TIMEOUT_SECS),
            )
            &&& crate::spawn::ends_as(
                r,
                final(spawner).calls().last().3,
                |out: crate::spawn::SpawnResult| add_spec(worktree_path_spec(cache@, tag@), tag@, out.exit_code, out.stderr@),
            )
        },
        r matches Ok(p) ==> p@ == worktree_path_spec(cache@, tag@),
{
    let path = worktree_path(cache, tag);
    match state {
        TreeState::NotACheckout => {
            let mut v = text::chars_of_string(&path);
            text::push_str(&mut v, " exists but is not a git worktree. Remove it and try again.");
            Err(text::string_of(&v))
        },
        TreeState::Checkout => {
            let args = git::worktree_head_args(path.as_str(), tag);
            let out = match spawner.run("git", args.as_slice(), Some(git::GIT_TIMEOUT_SECS)) {
                Ok(out) => out,
                Err(e) => return Err(e),
            };
            reuse_outcome(path.as_str(), tag, &out)
        },
        TreeState::Missing => {
            let args = git::worktree_add_args(clone, path.as_str(), tag);
            let out = match spawner.run("git", args.as_slice(), Some(git::GIT_TIMEOUT_SECS)) {
                Ok(out) => out,
                Err(e) => return Err(e),
            };
            add_outcome(path.as_str(), tag, &out)
        },
    }
}

/// What a `worktree remove` run amounts to.
pub fn remove_outcome(out: &crate::spawn::SpawnResult) -> (r: Result<(), String>)
    ensures
        out.exit_code == Some(0i32) <==> r is Ok,
        r matches Err(m) ==> m@ == "git worktree remove failed: "@ + text::trim(out.stderr@),
{
    if out.exit_code == Some(0i32) {
        return Ok(());
    }
    let mut v = text::chars_of("git worktree remove failed: ");
    let e = text::chars_of_string(&out.stderr);
    let t = text::trim_exec(&e);
    text::push_all(&mut v, &t);
    Err(text::string_of(&v))
}

/// Removes the tree for `tag`, and the entry git wrote into the shared clone.
///
/// `exists` says whether anything is at `worktree_path(cache, tag)`. Removing
/// a tree that is not there is not an error and runs nothing, so cleanup can
/// be run twice.
pub fn remove<S: crate::spawn::Spawner>(spawner: &mut S, clone: &str, cache: &str, tag: &str, exists: bool) -> (r: Result<(), String>)
    ensures
        !exists ==> r is Ok && *final(spawner) == *old(spawner),
        exists && old(spawner).records_calls() ==> {
            &&& crate::spawn::one_run(
                old(spawner).calls(),
                final(spawner).calls(),
                "git"@,
                git::worktree_remove_args_spec(clone@, worktree_path_spec(cache@, tag@)),
                Some(git::GIT_TIMEOUT_SECS),
            )
            &&& match final(spawner).calls().last().3 {
                Ok(out) => (out.exit_code == Some(0i32) <==> r is Ok)
                    && (r matches Err(m) ==> m@ == "git worktree remove failed: "@ + text::trim(out.stderr@)),
                Err(e) => r == Err::<(), String>(e),
            }
        },
{
    if !exists {
        return Ok(());
    }
    let path = worktree_path(cache, tag);
    let args = git::worktree_remove_args(clone, path.as_str());
    let out = match spawner.run("git", args.as_slice(), Some(git::GIT_TIMEOUT_SECS)) {
        Ok(out) => out,
        Err(e) => return Err(e),
    };
    remove_outcome(&out)
}

/// An existing tree is reused only when git answered and the tree is at the
/// very commit its tag names now; then the tree's own path comes back. A
/// failed read, or a tree at another commit than the tag's, is an error.
pub proof fn law_a_tree_is_reused_only_at_its_tag(
    path: Seq<char>,
    tag: Seq<char>,
    code: Option<i32>,
    stdout: Seq<char>,
    stderr: Seq<char>,
)
    ensures
        code != Some(0i32) ==> reuse_spec(path, tag, code, stdout, stderr) is Err,
        reuse_spec(path, tag, code, stdout, stderr) is Ok ==> (code == Some(0i32) && reuse_spec(
            path,
            tag,
            code,
            stdout,
            stderr,
        ) == Ok::<Seq<char>, Seq<char>>(path) && text::first_word(stdout) is Some && text::first_word(stdout)
            == text::first_word(text::after_first_word(stdout))),
{
}

} // verus!
