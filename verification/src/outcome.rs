//! Deciding whether a run succeeded. The rule is per mode, not global.

use vstd::prelude::*;
use crate::probe::Mode;
use crate::text;

verus! {

/// What a probe raises to say it finished on purpose rather than crashed.
pub const SENTINEL: &'static str = "DUMPED-OK";

/// The default dump name for a probe mod.
pub const PROBE_DUMP_FILE: &'static str = "oracle-dump.json";

/// What was observed after the process ended.
#[derive(Debug, Clone)]
pub struct RunFacts {
    /// `None` when the process was killed, which is how a timeout ends.
    pub exit_code: Option<i32>,
    pub dump_exists: bool,
    /// Whether `DUMPED-OK` appeared in the game's output. Reported rather than
    /// required, because it distinguishes "the mod ran and finished" from "the
    /// mod crashed".
    pub sentinel_seen: bool,
}

#[derive(Debug, Clone, PartialEq, Eq)]
pub enum Outcome {
    Success,
    Failed(String),
}

/// The explanation for a `create` run that raised the sentinel and wrote no
/// dump.
pub open spec fn sentinel_without_dump_message() -> Seq<char> {
    "the probe raised DUMPED-OK but no oracle-dump.json exists. It ran and finished, so this is not a factorio_version mismatch. Check the name given to helpers.write_file against this report's `files` list: the dump must be written as oracle-dump.json."@
}

/// The explanation for a `create` run that wrote nothing and never raised
/// the sentinel.
pub open spec fn silent_skip_message() -> Seq<char> {
    "no oracle-dump.json was written, and the probe never raised DUMPED-OK. The most common cause is a factorio_version mismatch, which makes Factorio skip the mod in silence."@
}

/// The explanation for a non-zero exit.
pub open spec fn exit_message(code: i32) -> Seq<char> {
    "factorio exited "@ + text::signed_decimal(code as int)
}

/// What `evaluate` decides: `None` for success, or the failure's message.
pub open spec fn evaluate_spec(mode: Mode, exit_code: Option<i32>, dump: bool, sentinel: bool) -> Option<Seq<char>> {
    match mode {
        Mode::ReadOnly | Mode::Interactive => None,
        Mode::Create => if dump {
            None
        } else if sentinel {
            Some(sentinel_without_dump_message())
        } else {
            Some(silent_skip_message())
        },
        Mode::DumpData => match exit_code {
            Some(0) => if dump {
                None
            } else {
                Some("factorio exited 0 but wrote no dump"@)
            },
            Some(code) => Some(exit_message(code)),
            None => Some("factorio was killed before it exited"@),
        },
        Mode::Preview => match exit_code {
            Some(0) => if dump {
                None
            } else {
                Some("factorio exited 0 but wrote no preview"@)
            },
            Some(code) => Some(exit_message(code)),
            None => Some("factorio was killed before it exited"@),
        },
    }
}

fn failed_with(s: &str) -> (o: Outcome)
    ensures
        o matches Outcome::Failed(m) && m@ == s@,
{
    Outcome::Failed(s.to_string())
}

fn exited_with(code: i32) -> (o: Outcome)
    ensures
        o matches Outcome::Failed(m) && m@ == exit_message(code),
{
    let mut v = text::chars_of("factorio exited ");
    let d = text::signed_decimal_chars(code as i64);
    text::push_all(&mut v, &d);
    Outcome::Failed(text::string_of(&v))
}

/// Applies the mode's success rule.
///
/// One global rule would get two of the five modes wrong. `error("DUMPED-OK")`
/// makes Factorio exit non-zero and that is success, so `create` keys off the
/// dump. `--generate-map-preview` exits 0 on success. And for `--dump-data` a
/// non-zero exit is the diagnostic, so ignoring it would mean debugging a
/// missing file when the real message was a prototype error in the log.
pub fn evaluate(mode: Mode, facts: &RunFacts) -> (o: Outcome)
    ensures
        match (o, evaluate_spec(mode, facts.exit_code, facts.dump_exists, facts.sentinel_seen)) {
            (Outcome::Success, None) => true,
            (Outcome::Failed(m), Some(want)) => m@ == want,
            _ => false,
        },
{
    match mode {
        Mode::ReadOnly | Mode::Interactive => Outcome::Success,
        Mode::Create => {
            if facts.dump_exists {
                Outcome::Success
            } else if facts.sentinel_seen {
                // The sentinel rules the usual cause out. A mod skipped over a
                // factorio_version mismatch never runs, so it cannot raise one.
                failed_with(
                    "the probe raised DUMPED-OK but no oracle-dump.json exists. It ran and finished, so this is not a factorio_version mismatch. Check the name given to helpers.write_file against this report's `files` list: the dump must be written as oracle-dump.json.",
                )
            } else {
                failed_with(
                    "no oracle-dump.json was written, and the probe never raised DUMPED-OK. The most common cause is a factorio_version mismatch, which makes Factorio skip the mod in silence.",
                )
            }
        },
        Mode::DumpData => match facts.exit_code {
            Some(0) => if facts.dump_exists {
                Outcome::Success
            } else {
                failed_with("factorio exited 0 but wrote no dump")
            },
            Some(code) => exited_with(code),
            None => failed_with("factorio was killed before it exited"),
        },
        Mode::Preview => match facts.exit_code {
            Some(0) => if facts.dump_exists {
                Outcome::Success
            } else {
                failed_with("factorio exited 0 but wrote no preview")
            },
            Some(code) => exited_with(code),
            None => failed_with("factorio was killed before it exited"),
        },
    }
}

/// When a run counts as a success, for every mode and every exit code:
/// - `--create` keys off the dump alone: a dump that exists is a success
///   whatever the exit code and whether or not the sentinel showed, and a
///   missing dump is a failure even on exit 0;
/// - `--dump-data` and `--generate-map-preview` succeed exactly when the
///   game exited 0 and the expected file exists;
/// - an interactive or read-only run never fails on these facts.
pub proof fn law_when_a_run_succeeds(mode: Mode, exit_code: Option<i32>, dump: bool, sentinel: bool)
    ensures
        mode == Mode::Create ==> ((evaluate_spec(mode, exit_code, dump, sentinel) is None) <==> dump),
        (mode == Mode::DumpData || mode == Mode::Preview) ==> ((evaluate_spec(mode, exit_code, dump, sentinel) is None)
            <==> (exit_code == Some(0i32) && dump)),
        (mode == Mode::Interactive || mode == Mode::ReadOnly) ==> evaluate_spec(mode, exit_code, dump, sentinel) is None,
        mode == Mode::Create && !dump && sentinel ==> evaluate_spec(mode, exit_code, dump, sentinel) == Some(
            sentinel_without_dump_message(),
        ),
        mode == Mode::Create && !dump && !sentinel ==> evaluate_spec(mode, exit_code, dump, sentinel) == Some(
            silent_skip_message(),
        ),
{
}

} // verus!
