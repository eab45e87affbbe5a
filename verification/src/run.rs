//! The decisions a probe run makes: where its files go, what it launches,
//! what control script the mod gets, and what the game's output says.
//!
//! Writing the files, running the game and reading the directory back are
//! the caller's; every choice between them is made here.

use vstd::prelude::*;
use crate::args::Launch;
use crate::lua;
use crate::outcome::{Outcome, PROBE_DUMP_FILE};
use crate::paths;
use crate::probe::Mode;
use crate::sortedset;
use crate::spawn::{tail, tail_spec, SpawnResult};
use crate::strmap::{strictly_sorted, StrMap};
use crate::text;

verus! {

/// The dump file a `--dump-data` run writes, named by the game.
pub const DUMP_DATA_FILE: &'static str = "data-raw-dump.json";

/// The preview image name.
pub const PREVIEW_FILE: &'static str = "preview.png";

/// Every path a run uses, all inside its work directory.
#[derive(Debug, Clone)]
pub struct RunPaths {
    pub work: String,
    pub mod_dir: String,
    pub write_data: String,
    pub script_output: String,
    pub config: String,
    pub map_gen: String,
}

impl RunPaths {
    pub open spec fn matches(self, work: Seq<char>) -> bool {
        &&& self.work@ == work
        &&& self.mod_dir@ == paths::join(work, "mods"@)
        &&& self.write_data@ == paths::join(work, "write"@)
        &&& self.script_output@ == paths::join(paths::join(work, "write"@), "script-output"@)
        &&& self.config@ == paths::join(work, "config.ini"@)
        &&& self.map_gen@ == paths::join(work, "map-gen-settings.json"@)
    }
}

/// The layout of a work directory: `mods/`, `write/`,
/// `write/script-output/`, `config.ini` and `map-gen-settings.json`.
pub fn run_paths(work: &str) -> (p: RunPaths)
    ensures
        p.matches(work@),
{
    let write_data = paths::join_str(work, "write");
    let script_output = paths::join_str(write_data.as_str(), "script-output");
    RunPaths {
        work: work.to_string(),
        mod_dir: paths::join_str(work, "mods"),
        write_data,
        script_output,
        config: paths::join_str(work, "config.ini"),
        map_gen: paths::join_str(work, "map-gen-settings.json"),
    }
}

/// What to launch for a mode, and the file whose existence is the dump.
/// `ReadOnly` launches nothing.
pub fn plan_launch(mode: Mode, p: &RunPaths, has_map_gen: bool, seed: Option<u64>) -> (r: (Option<Launch>, String))
    ensures
        match mode {
            Mode::DumpData => r.0 matches Some(Launch::DumpData { mod_dir, config }) && mod_dir@ == p.mod_dir@ && config@ == p.config@
                && r.1@ == paths::join(p.script_output@, "data-raw-dump.json"@),
            Mode::Create => r.0 matches Some(Launch::Create { save, map_gen, seed: s, mod_dir, config })
                && save@ == paths::join(p.write_data@, "probe.zip"@)
                && (has_map_gen ==> (map_gen matches Some(m) && m@ == p.map_gen@))
                && (!has_map_gen ==> map_gen is None)
                && s == seed && mod_dir@ == p.mod_dir@ && config@ == p.config@
                && r.1@ == paths::join(p.script_output@, "oracle-dump.json"@),
            Mode::Interactive => r.0 matches Some(Launch::Interactive { scenario, mod_dir, config })
                && scenario@ == "base/freeplay"@ && mod_dir@ == p.mod_dir@ && config@ == p.config@
                && r.1@ == paths::join(p.script_output@, "oracle-dump.json"@),
            Mode::Preview => r.0 matches Some(Launch::Preview { out, map_gen, planet, seed: s, size })
                && out@ == paths::join(p.write_data@, "preview.png"@) && map_gen@ == p.map_gen@
                && planet is None && s is None && size is None
                && r.1@ == paths::join(p.write_data@, "preview.png"@),
            Mode::ReadOnly => r.0 is None && r.1@.len() == 0,
        },
{
    match mode {
        Mode::DumpData => (
            Some(Launch::DumpData { mod_dir: p.mod_dir.clone(), config: p.config.clone() }),
            paths::join_str(p.script_output.as_str(), DUMP_DATA_FILE),
        ),
        Mode::Create => {
            let map_gen = if has_map_gen {
                Some(p.map_gen.clone())
            } else {
                None
            };
            (
                Some(Launch::Create {
                    save: paths::join_str(p.write_data.as_str(), "probe.zip"),
                    map_gen,
                    // One source of truth: the seed reaches the game through
                    // both the settings file and the flag.
                    seed,
                    mod_dir: p.mod_dir.clone(),
                    config: p.config.clone(),
                }),
                paths::join_str(p.script_output.as_str(), PROBE_DUMP_FILE),
            )
        },
        Mode::Interactive => (
            Some(Launch::Interactive {
                scenario: "base/freeplay".to_string(),
                mod_dir: p.mod_dir.clone(),
                config: p.config.clone(),
            }),
            paths::join_str(p.script_output.as_str(), PROBE_DUMP_FILE),
        ),
        Mode::Preview => (
            Some(Launch::Preview {
                out: paths::join_str(p.write_data.as_str(), PREVIEW_FILE),
                map_gen: p.map_gen.clone(),
                planet: None,
                seed: None,
                size: None,
            }),
            paths::join_str(p.write_data.as_str(), PREVIEW_FILE),
        ),
        Mode::ReadOnly => (None, String::new()),
    }
}

/// How long a run may take. Interactive runs never get a timeout: they last
/// as long as a person plays.
pub fn run_timeout(mode: Mode, timeout_seconds: Option<u64>) -> (t: Option<u64>)
    ensures
        t == if mode == Mode::Interactive {
            None
        } else {
            timeout_seconds
        },
{
    match mode {
        Mode::Interactive => None,
        _ => timeout_seconds,
    }
}

/// The control script a probe mod gets: the active-mods prelude when it was
/// asked for, then the literal locals, then the consumer's Lua untouched.
pub fn control_script(capture_active_mods: bool, literals: &StrMap<String>, consumer_lua: &str) -> (s: String)
    ensures
        s@ == (if capture_active_mods {
            "\nhelpers.write_file(\"oracle-active-mods.json\", helpers.table_to_json(script.active_mods))\n"@
        } else {
            Seq::empty()
        }) + lua::prelude_spec(literals.entries@, literals.entries@.len() as int) + consumer_lua@,
{
    let mut v: Vec<char> = Vec::new();
    if capture_active_mods {
        text::push_str(&mut v, crate::scaffold::ACTIVE_MODS_PRELUDE);
    }
    let pre = lua::build_literals_prelude(literals);
    text::push_str(&mut v, pre.as_str());
    text::push_str(&mut v, consumer_lua);
    text::string_of(&v)
}

/// Whether the sentinel appears on either stream. The game puts it on
/// stdout; stderr is read as well so that a version which starts using it is
/// still caught.
pub fn sentinel_seen(out: &SpawnResult) -> (b: bool)
    ensures
        b == (text::contains(out.stdout@, "DUMPED-OK"@) || text::contains(out.stderr@, "DUMPED-OK"@)),
{
    let marker = text::chars_of(crate::outcome::SENTINEL);
    let o = text::chars_of_string(&out.stdout);
    let e = text::chars_of_string(&out.stderr);
    text::contains_exec(&o, &marker) || text::contains_exec(&e, &marker)
}

/// The name one line reports, if it is a `Loading mod` line.
pub open spec fn mod_name_of(line: Seq<char>) -> Option<Seq<char>> {
    match text::find(line, "Loading mod "@) {
        Some(i) => text::first_word(line.skip(i + 12)),
        None => None,
    }
}

/// The mod names named by `Loading mod <name> ...` lines, in line order.
pub open spec fn mod_names(ls: Seq<Seq<char>>) -> Seq<Seq<char>>
    decreases ls.len(),
{
    if ls.len() == 0 {
        Seq::empty()
    } else {
        let r = mod_names(ls.drop_last());
        match mod_name_of(ls.last()) {
            Some(w) => r.push(w),
            None => r,
        }
    }
}

fn marker() -> (v: Vec<char>)
    ensures
        v@ == "Loading mod "@,
        v@.len() == 12,
{
    let v = text::chars_of("Loading mod ");
    proof {
        reveal_strlit("Loading mod ");
    }
    v
}

fn mod_name_of_exec(line: &Vec<char>, marker: &Vec<char>) -> (r: Option<Vec<char>>)
    requires
        marker@ == "Loading mod "@,
        marker@.len() == 12,
    ensures
        match (r, mod_name_of(line@)) {
            (Some(w), Some(x)) => w@ == x,
            (None, None) => true,
            _ => false,
        },
{
    let f = text::find_exec(line, marker);
    assert(text::find(line@, marker@) == text::find(line@, "Loading mod "@));
    match f {
        Some(at) => {
            assert(text::occurs_at(line@, marker@, at as int));
            assert(at + marker@.len() <= line@.len());
            let ll: usize = line.len();
            let rest = text::slice(line, at + 12, ll);
            assert(rest@ == line@.skip(at + 12));
            let w = text::first_word_exec(&rest);
            assert(mod_name_of(line@) == text::first_word(rest@));
            w
        },
        None => None,
    }
}

/// The mods the game reported loading, sorted and deduplicated.
///
/// Read from stdout rather than from the `script.active_mods` prelude:
/// `dump-data` runs no mod at all, and the prelude cannot see `core`. The
/// line shape is `Loading mod <name> <version> (<stage>.lua)`.
pub fn loaded_mods(stdout: &str) -> (names: Vec<String>)
    ensures
        strictly_sorted(text::strs(names@)),
        forall|q: Seq<char>| sortedset::member(text::strs(names@), q) == sortedset::member(mod_names(text::lines(stdout@)), q),
{
    let m = marker();
    let s = text::chars_of(stdout);
    let ls = text::lines_exec(&s);
    let mut found: Vec<Vec<char>> = Vec::new();
    let mut i: usize = 0;
    while i < ls.len()
        invariant
            i <= ls.len(),
            m@ == "Loading mod "@,
            m@.len() == 12,
            text::views(ls@) == text::lines(stdout@),
            text::views(found@) == mod_names(text::views(ls@).take(i as int)),
        decreases ls.len() - i,
    {
        proof {
            assert(ls@[i as int]@ == text::views(ls@)[i as int]);
            assert(text::views(ls@).take(i + 1).drop_last() =~= text::views(ls@).take(i as int));
        }
        let ghost before = text::views(found@);
        match mod_name_of_exec(&ls[i], &m) {
            Some(w) => {
                let ghost wv = w@;
                found.push(w);
                assert(text::views(found@) =~= before.push(wv));
            },
            None => {},
        }
        i = i + 1;
    }
    assert(text::views(ls@).take(ls.len() as int) =~= text::views(ls@));
    let sorted = sortedset::sorted_unique(&found);
    let names = text::strings_of(&sorted);
    names
}


/// How many bytes of each stream a failed run reports.
pub const TAIL_BYTES: usize = 4000;

/// What a failed run reports: why, and the end of each stream, which is the
/// only diagnostic there is when a run produces no dump.
#[derive(Debug, Clone)]
pub struct Failure {
    pub error: String,
    pub stdout_tail: String,
    pub stderr_tail: String,
}

/// What a run reports of its outcome: whether it succeeded, and on failure
/// the error with the last `TAIL_BYTES` of stdout and of stderr.
#[derive(Debug, Clone)]
pub struct RunVerdict {
    pub ok: bool,
    pub failure: Option<Failure>,
}

/// Turns a run's outcome and its two streams into what the run reports.
/// The tails are kept only on failure.
pub fn run_verdict(outcome: Outcome, stdout: &str, stderr: &str) -> (v: RunVerdict)
    ensures
        v.ok == (outcome is Success),
        match outcome {
            Outcome::Success => v.failure is None,
            Outcome::Failed(m) => v.failure matches Some(f) && f.error@ == m@ && f.stdout_tail@ == tail_spec(
                stdout@,
                TAIL_BYTES as nat,
            ) && f.stderr_tail@ == tail_spec(stderr@, TAIL_BYTES as nat),
        },
{
    match outcome {
        Outcome::Success => RunVerdict { ok: true, failure: None },
        Outcome::Failed(m) => {
            let out_tail = tail(stdout, TAIL_BYTES);
            let err_tail = tail(stderr, TAIL_BYTES);
            RunVerdict { ok: false, failure: Some(Failure { error: m, stdout_tail: out_tail, stderr_tail: err_tail }) }
        },
    }
}

} // verus!
