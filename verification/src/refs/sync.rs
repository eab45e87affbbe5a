//! Whether a version can be read at all, and whether it can be read offline.
//!
//! Since nothing here ever moves `HEAD`, there is no working-tree state left
//! to pin. What is left is availability: is the clone there, is the tag
//! fetched, and are that version's docs reachable without a network.

use vstd::prelude::*;
use crate::paths;
use crate::refs::git;
use crate::text;

verus! {

/// Where that version's docs can be read from, if anywhere.
#[derive(Debug, Clone, PartialEq, Eq)]
pub enum DocsStanding {
    /// The version is installed, so every docs file is already on disk.
    Installed(String),
    /// At least one file has been fetched into the cache.
    Cached(String),
    /// Nothing yet, which is the normal state for a version nobody asked
    /// about. Files arrive one at a time, on demand.
    Absent,
}

impl DocsStanding {
    /// The name a consumer keys on.
    pub fn as_str(&self) -> (s: &'static str)
        ensures
            s@ == match self {
                DocsStanding::Installed(_) => "installed"@,
                DocsStanding::Cached(_) => "cached"@,
                DocsStanding::Absent => "absent"@,
            },
    {
        match self {
            DocsStanding::Installed(_) => "installed",
            DocsStanding::Cached(_) => "cached",
            DocsStanding::Absent => "absent",
        }
    }
}

/// What is readable for one version, right now.
#[derive(Debug, Clone, PartialEq, Eq)]
pub struct Availability {
    pub version: String,
    pub clone: String,
    pub clone_present: bool,
    pub tag_present: bool,
    pub docs: DocsStanding,
}

impl Availability {
    /// True when the data Lua for this version can be read.
    ///
    /// Docs are not part of this. They arrive one file at a time on demand,
    /// so "not fetched yet" is the normal state and reporting it as a failure
    /// would make `--check` red on a healthy machine.
    pub fn ok(&self) -> (b: bool)
        ensures
            b == (self.clone_present && self.tag_present),
    {
        self.clone_present && self.tag_present
    }
}

/// Whether the clone can resolve this tag. Fetches nothing: the one git call
/// is a `rev-parse`, and the answer is whether it exited 0.
pub fn tag_present<S: crate::spawn::Spawner>(spawner: &mut S, clone: &str, tag: &str) -> (r: Result<bool, String>)
    ensures
        old(spawner).records_calls() ==> {
            &&& crate::spawn::one_run(old(spawner).calls(), final(spawner).calls(), "git"@, git::tag_exists_args_spec(clone@, tag@), Some(git::GIT_TIMEOUT_SECS))
            &&& match final(spawner).calls().last().3 {
                Ok(out) => r == Ok::<bool, String>(out.exit_code == Some(0i32)),
                Err(e) => r == Err::<bool, String>(e),
            }
        },
{
    let args = git::tag_exists_args(clone, tag);
    let out = match spawner.run("git", args.as_slice(), Some(git::GIT_TIMEOUT_SECS)) {
        Ok(out) => out,
        Err(e) => return Err(e),
    };
    Ok(out.exit_code == Some(0i32))
}

/// What a `git fetch --tags` run amounts to.
pub fn fetch_tags_outcome(out: &crate::spawn::SpawnResult) -> (r: Result<(), String>)
    ensures
        out.exit_code == Some(0i32) <==> r is Ok,
        r matches Err(m) ==> m@ == "git fetch --tags failed: "@ + text::trim(out.stderr@),
{
    if out.exit_code == Some(0i32) {
        return Ok(());
    }
    let mut v = text::chars_of("git fetch --tags failed: ");
    let e = text::chars_of_string(&out.stderr);
    let t = text::trim_exec(&e);
    text::push_all(&mut v, &t);
    Err(text::string_of(&v))
}

/// Fetches tags, so a tag released since the last fetch becomes readable.
///
/// This writes refs and objects into a clone this tool does not own, and
/// nothing else. No working tree changes and `HEAD` does not move.
pub fn fetch_tags<S: crate::spawn::Spawner>(spawner: &mut S, clone: &str) -> (r: Result<(), String>)
    ensures
        old(spawner).records_calls() ==> {
            &&& crate::spawn::one_run(old(spawner).calls(), final(spawner).calls(), "git"@, git::fetch_tags_args_spec(clone@), Some(git::FETCH_TIMEOUT_SECS))
            &&& match final(spawner).calls().last().3 {
                Ok(out) => (out.exit_code == Some(0i32) <==> r is Ok)
                    && (r matches Err(m) ==> m@ == "git fetch --tags failed: "@ + text::trim(out.stderr@)),
                Err(e) => r == Err::<(), String>(e),
            }
        },
{
    let args = git::fetch_tags_args(clone);
    let out = match spawner.run("git", args.as_slice(), Some(git::FETCH_TIMEOUT_SECS)) {
        Ok(out) => out,
        Err(e) => return Err(e),
    };
    fetch_tags_outcome(&out)
}

/// Where this version's docs are, if anywhere.
///
/// `installed_is_dir` says whether the install's doc directory is a
/// directory, and `cache_has_files` whether `<cache>/docs/<version>` holds
/// anything. An empty directory is what an interrupted fetch leaves, and it
/// holds no answers, so it does not count.
pub fn docs_standing(
    installed_doc_dir: Option<&str>,
    installed_is_dir: bool,
    cache: &str,
    version: &str,
    cache_has_files: bool,
) -> (d: DocsStanding)
    ensures
        match installed_doc_dir {
            Some(doc) if installed_is_dir => d matches DocsStanding::Installed(p) && p@ == doc@,
            _ => if cache_has_files {
                d matches DocsStanding::Cached(p) && p@ == paths::join(paths::join(cache@, "docs"@), version@)
            } else {
                d matches DocsStanding::Absent
            },
        },
{
    if let Some(doc) = installed_doc_dir {
        if installed_is_dir {
            return DocsStanding::Installed(doc.to_string());
        }
    }
    if cache_has_files {
        let d = paths::join_str(cache, "docs");
        return DocsStanding::Cached(paths::join_str(d.as_str(), version));
    }
    DocsStanding::Absent
}

/// The docs line's text.
pub open spec fn docs_text(d: DocsStanding) -> Seq<char> {
    match d {
        DocsStanding::Installed(p) => "installed at "@ + p@,
        DocsStanding::Cached(p) => "cached at "@ + p@,
        DocsStanding::Absent => "not fetched yet, fetched per file on demand"@,
    }
}

/// The report `render` writes: a heading, one line each for the clone, the
/// tag and the docs with the label padded to fourteen columns, and a line
/// saying what to do next.
pub open spec fn render_spec(a: Availability) -> Seq<char> {
    "Factorio "@ + a.version@ + " reference material:\n"@ + "  clone          "@ + (if a.clone_present {
        a.clone@
    } else {
        a.clone@ + " (not cloned)"@
    }) + seq!['\n'] + "  tag            "@ + a.version@ + (if a.tag_present {
        " is readable"@
    } else {
        " is not fetched"@
    }) + seq!['\n'] + "  lua-api docs   "@ + docs_text(a.docs) + seq!['\n'] + if a.clone_present
        && a.tag_present {
        "  -> readable at the tag. HEAD was not moved.\n"@
    } else if !a.clone_present {
        "  -> clone https://github.com/wube/factorio-data, or set FACTORIO_DATA_DIR.\n"@
    } else {
        "  -> run 'factorio-oracle refs sync "@ + a.version@ + "' to fetch the tag.\n"@
    }
}

pub fn render(a: &Availability) -> (s: String)
    ensures
        s@ == render_spec(*a),
{
    let mut out = text::chars_of("Factorio ");
    text::push_str(&mut out, a.version.as_str());
    text::push_str(&mut out, " reference material:\n");
    text::push_str(&mut out, "  clone          ");
    text::push_str(&mut out, a.clone.as_str());
    if !a.clone_present {
        text::push_str(&mut out, " (not cloned)");
    }
    out.push('\n');
    text::push_str(&mut out, "  tag            ");
    text::push_str(&mut out, a.version.as_str());
    if a.tag_present {
        text::push_str(&mut out, " is readable");
    } else {
        text::push_str(&mut out, " is not fetched");
    }
    out.push('\n');
    text::push_str(&mut out, "  lua-api docs   ");
    match &a.docs {
        DocsStanding::Installed(p) => {
            text::push_str(&mut out, "installed at ");
            text::push_str(&mut out, p.as_str());
        },
        DocsStanding::Cached(p) => {
            text::push_str(&mut out, "cached at ");
            text::push_str(&mut out, p.as_str());
        },
        DocsStanding::Absent => text::push_str(&mut out, "not fetched yet, fetched per file on demand"),
    }
    out.push('\n');
    if a.ok() {
        // Say the rule out loud. Someone reading this output is the person
        // most likely to reach for a checkout next.
        text::push_str(&mut out, "  -> readable at the tag. HEAD was not moved.\n");
    } else if !a.clone_present {
        text::push_str(&mut out, "  -> clone https://github.com/wube/factorio-data, or set FACTORIO_DATA_DIR.\n");
    } else {
        text::push_str(&mut out, "  -> run 'factorio-oracle refs sync ");
        text::push_str(&mut out, a.version.as_str());
        text::push_str(&mut out, "' to fetch the tag.\n");
    }
    assert(out@ =~= render_spec(*a));
    text::string_of(&out)
}

} // verus!
