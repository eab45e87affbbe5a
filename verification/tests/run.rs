use factorio_oracle::args::{build_args, Launch};
use factorio_oracle::probe::Mode;
use factorio_oracle::run::{
    control_script, loaded_mods, plan_launch, run_paths, run_timeout, run_verdict, sentinel_seen,
};
use factorio_oracle::outcome::Outcome;
use factorio_oracle::spawn::SpawnResult;
use factorio_oracle::strmap::StrMap;

#[test]
fn the_sentinel_is_found_on_stdout_which_is_where_the_game_puts_it() {
    for (stdout, stderr, case) in [
        ("__p__/control.lua:11: DUMPED-OK", "", "stdout, as measured"),
        ("", "__p__/control.lua:11: DUMPED-OK", "stderr, as a fallback"),
        ("nothing useful", "", "neither"),
    ] {
        let out = SpawnResult {
            exit_code: Some(1),
            stdout: stdout.to_string(),
            stderr: stderr.to_string(),
        };
        let expected = case != "neither";
        assert_eq!(sentinel_seen(&out), expected, "sentinel on {case} was read wrongly");
    }
}

#[test]
fn loaded_mods_are_read_off_the_games_own_output() {
    // Real lines from a 2.1.14 --dump-data run.
    let stdout = "\
   0.043 Loading mod core 0.0.0 (data.lua)
   0.053 Loading mod base 2.1.14 (data.lua)
   0.165 Loading mod recycler 2.1.14 (data.lua)
   0.173 Loading mod base 2.1.14 (data-updates.lua)
   0.177 Loading mod recycler 2.1.14 (data-updates.lua)
   0.674 Prototype list checksum: 3041708406
";
    // Sorted and deduplicated: base loads three times across the stages.
    assert_eq!(loaded_mods(stdout), vec!["base", "core", "recycler"]);
}

#[test]
fn loaded_mods_includes_core_which_active_mods_does_not() {
    let stdout = "   0.043 Loading mod core 0.0.0 (data.lua)\n";
    assert_eq!(loaded_mods(stdout), vec!["core"]);
}

#[test]
fn a_mod_name_with_a_hyphen_or_underscore_survives() {
    let stdout = "Loading mod elevated-rails 2.1.14 (data.lua)\n\
                  Loading mod oracle_probe 0.0.1 (data.lua)\n";
    assert_eq!(loaded_mods(stdout), vec!["elevated-rails", "oracle_probe"]);
}

#[test]
fn output_with_no_such_lines_gives_an_empty_list() {
    assert!(loaded_mods("nothing to see here").is_empty());
}

#[test]
fn literals_are_prepended_above_the_consumer_lua() {
    let mut literals = StrMap::new();
    literals.insert("blueprint".to_string(), "0eNq".to_string());
    assert_eq!(
        control_script(false, &literals, "game.print(blueprint)"),
        "local blueprint = [[0eNq]]\ngame.print(blueprint)"
    );
}

#[test]
fn the_active_mods_prelude_comes_first_when_asked_for() {
    let script = control_script(true, &StrMap::new(), "x()");
    assert!(script.starts_with("\nhelpers.write_file(\"oracle-active-mods.json\""));
    assert!(script.ends_with("x()"));
}

#[test]
fn a_work_directory_holds_every_path_a_run_uses() {
    let p = run_paths("/w");
    assert_eq!(p.mod_dir, "/w/mods");
    assert_eq!(p.write_data, "/w/write");
    assert_eq!(p.script_output, "/w/write/script-output");
    assert_eq!(p.config, "/w/config.ini");
    assert_eq!(p.map_gen, "/w/map-gen-settings.json");
}

#[test]
fn a_create_run_passes_the_settings_and_the_seed() {
    let p = run_paths("/w");
    let (launch, dump) = plan_launch(Mode::Create, &p, true, Some(123456));
    let args = build_args(&launch.unwrap());
    assert!(args.contains(&"--map-gen-settings".to_string()));
    assert!(args.contains(&"--map-gen-seed".to_string()));
    assert!(args.contains(&"123456".to_string()));
    assert_eq!(dump, "/w/write/script-output/oracle-dump.json");
}

#[test]
fn a_dump_data_run_looks_for_the_games_own_dump() {
    let p = run_paths("/w");
    let (launch, dump) = plan_launch(Mode::DumpData, &p, true, None);
    assert!(matches!(launch, Some(Launch::DumpData { .. })));
    assert_eq!(dump, "/w/write/script-output/data-raw-dump.json");
}

#[test]
fn a_read_only_run_launches_nothing() {
    let p = run_paths("/w");
    let (launch, dump) = plan_launch(Mode::ReadOnly, &p, false, None);
    assert!(launch.is_none());
    assert_eq!(dump, "");
}

#[test]
fn a_preview_writes_its_image_into_the_write_directory() {
    let p = run_paths("/w");
    let (launch, dump) = plan_launch(Mode::Preview, &p, true, None);
    let args = build_args(&launch.unwrap());
    assert_eq!(args[0], "--generate-map-preview");
    assert_eq!(args[1], "/w/write/preview.png");
    assert_eq!(dump, "/w/write/preview.png");
}

#[test]
fn an_interactive_run_never_times_out() {
    assert_eq!(run_timeout(Mode::Interactive, Some(60)), None);
    assert_eq!(run_timeout(Mode::Create, Some(60)), Some(60));
    assert_eq!(run_timeout(Mode::DumpData, None), None);
}

#[test]
fn a_successful_run_reports_no_tails() {
    let v = run_verdict(Outcome::Success, "lots of output", "more");
    assert!(v.ok);
    assert!(v.failure.is_none());
}

#[test]
fn a_failed_run_reports_its_error_and_the_last_4000_bytes_of_each_stream() {
    let stdout = format!("{}{}", "x".repeat(5000), "END");
    let v = run_verdict(Outcome::Failed("no dump".to_string()), &stdout, "short");
    assert!(!v.ok);
    let f = v.failure.expect("a failure carries its report");
    assert_eq!(f.error, "no dump");
    assert_eq!(f.stdout_tail.len(), 4000);
    assert!(f.stdout_tail.ends_with("END"));
    assert_eq!(f.stderr_tail, "short");
}
