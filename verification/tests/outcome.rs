use factorio_oracle::outcome::{evaluate, Outcome, RunFacts, PROBE_DUMP_FILE, SENTINEL};
use factorio_oracle::probe::Mode;

fn facts(exit: Option<i32>, dump: bool, sentinel: bool) -> RunFacts {
    RunFacts {
        exit_code: exit,
        dump_exists: dump,
        sentinel_seen: sentinel,
    }
}

#[test]
fn create_succeeds_on_a_non_zero_exit_when_the_dump_exists() {
    // error("DUMPED-OK") is how the probe exits. Non-zero is success here.
    assert_eq!(
        evaluate(Mode::Create, &facts(Some(1), true, true)),
        Outcome::Success
    );
}

#[test]
fn create_fails_when_no_dump_was_written() {
    let out = evaluate(Mode::Create, &facts(Some(1), false, false));
    assert!(matches!(out, Outcome::Failed(_)));
}

#[test]
fn a_create_failure_with_no_sentinel_names_the_version_mismatch() {
    // Nothing ran, so the silent skip really is the first thing to check.
    let Outcome::Failed(why) = evaluate(Mode::Create, &facts(Some(1), false, false)) else {
        panic!("expected a failure");
    };
    assert!(why.contains("factorio_version"), "{why}");
    assert!(why.contains(PROBE_DUMP_FILE), "{why}");
}

#[test]
fn a_create_failure_after_the_sentinel_rules_the_version_mismatch_out() {
    // The mod ran to its own last line, so info.json is not the place to
    // look. The first consumer probe landed exactly here by writing its
    // dump under another name.
    let Outcome::Failed(why) = evaluate(Mode::Create, &facts(Some(1), false, true)) else {
        panic!("expected a failure");
    };
    assert!(
        why.contains("not a factorio_version mismatch"),
        "the sentinel excludes that cause: {why}"
    );
    assert!(
        !why.contains("most common cause"),
        "that is the other arm's claim: {why}"
    );
    assert!(why.contains(SENTINEL), "{why}");
    assert!(why.contains("helpers.write_file"), "{why}");
    assert!(why.contains(PROBE_DUMP_FILE), "{why}");
}

#[test]
fn dump_data_fails_on_a_non_zero_exit_even_if_a_dump_is_present() {
    // A non-zero exit is real information here, and a stale dump from an
    // earlier capture can be sitting in a discovered directory.
    let out = evaluate(Mode::DumpData, &facts(Some(1), true, false));
    assert!(matches!(out, Outcome::Failed(_)));
}

#[test]
fn dump_data_succeeds_on_exit_zero_with_a_dump() {
    assert_eq!(
        evaluate(Mode::DumpData, &facts(Some(0), true, false)),
        Outcome::Success
    );
}

#[test]
fn dump_data_fails_on_exit_zero_with_no_dump() {
    let out = evaluate(Mode::DumpData, &facts(Some(0), false, false));
    assert!(matches!(out, Outcome::Failed(_)));
}

#[test]
fn preview_requires_exit_zero_and_the_file() {
    assert_eq!(
        evaluate(Mode::Preview, &facts(Some(0), true, false)),
        Outcome::Success
    );
    assert!(matches!(
        evaluate(Mode::Preview, &facts(Some(1), true, false)),
        Outcome::Failed(_)
    ));
    assert!(matches!(
        evaluate(Mode::Preview, &facts(Some(0), false, false)),
        Outcome::Failed(_)
    ));
}

#[test]
fn interactive_always_succeeds_because_the_consumer_judges_it() {
    // A session can end any way a person likes, and only the consumer knows
    // whether the samples it collected are usable.
    assert_eq!(
        evaluate(Mode::Interactive, &facts(Some(0), false, false)),
        Outcome::Success
    );
    assert_eq!(
        evaluate(Mode::Interactive, &facts(None, false, false)),
        Outcome::Success
    );
}

#[test]
fn read_only_never_runs_anything() {
    assert_eq!(
        evaluate(Mode::ReadOnly, &facts(None, false, false)),
        Outcome::Success
    );
}

#[test]
fn a_missing_exit_code_fails_the_modes_that_need_one() {
    // No exit code means the process was killed, which is how a timeout ends.
    assert!(matches!(
        evaluate(Mode::DumpData, &facts(None, true, false)),
        Outcome::Failed(_)
    ));
    assert!(matches!(
        evaluate(Mode::Preview, &facts(None, true, false)),
        Outcome::Failed(_)
    ));
}

#[test]
fn a_non_zero_exit_names_the_exit_code() {
    assert_eq!(
        evaluate(Mode::DumpData, &facts(Some(-9), true, false)),
        Outcome::Failed("factorio exited -9".to_string())
    );
}
