use factorio_oracle::args::{build_args, Launch};


#[test]
fn dump_data_passes_only_the_mod_directory_and_config() {
    let args = build_args(&Launch::DumpData {
        mod_dir: "/w/mods".into(),
        config: "/w/config.ini".into(),
    });
    assert_eq!(
        args,
        vec![
            "--dump-data",
            "--mod-directory",
            "/w/mods",
            "--config",
            "/w/config.ini"
        ]
    );
}

#[test]
fn create_passes_map_gen_settings_when_there_are_any() {
    let args = build_args(&Launch::Create {
        save: "/w/probe.zip".into(),
        map_gen: Some("/w/map-gen.json".into()),
        seed: None,
        mod_dir: "/w/mods".into(),
        config: "/w/config.ini".into(),
    });
    assert!(args.contains(&"--map-gen-settings".to_string()));
    assert_eq!(args[0], "--create");
    assert_eq!(args[1], "/w/probe.zip");
}

#[test]
fn create_omits_map_gen_settings_when_there_are_none() {
    // Measured 2026-08-16 on 2.1.14: --create works with no settings file.
    // The consumer repos always passed one out of habit, not necessity.
    let args = build_args(&Launch::Create {
        save: "/w/probe.zip".into(),
        map_gen: None,
        seed: None,
        mod_dir: "/w/mods".into(),
        config: "/w/config.ini".into(),
    });
    assert!(!args.contains(&"--map-gen-settings".to_string()));
    assert!(args.contains(&"--mod-directory".to_string()));
}

#[test]
fn create_also_passes_the_seed_on_the_command_line() {
    // Measured: --map-gen-seed overrides the seed inside the settings file.
    // Both come from one field so they agree, and a caller that omits the
    // seed gets neither channel.
    let args = build_args(&Launch::Create {
        save: "/w/probe.zip".into(),
        map_gen: Some("/w/map-gen.json".into()),
        seed: Some(123456),
        mod_dir: "/w/mods".into(),
        config: "/w/config.ini".into(),
    });
    assert!(args.contains(&"--map-gen-seed".to_string()));
    assert!(args.contains(&"123456".to_string()));

    let without = build_args(&Launch::Create {
        save: "/w/probe.zip".into(),
        map_gen: Some("/w/map-gen.json".into()),
        seed: None,
        mod_dir: "/w/mods".into(),
        config: "/w/config.ini".into(),
    });
    assert!(!without.contains(&"--map-gen-seed".to_string()));
}

#[test]
fn interactive_loads_a_scenario_and_never_creates() {
    let args = build_args(&Launch::Interactive {
        scenario: "base/freeplay".into(),
        mod_dir: "/w/mods".into(),
        config: "/w/config.ini".into(),
    });
    assert!(args.contains(&"--load-scenario".to_string()));
    assert!(args.contains(&"base/freeplay".to_string()));
    assert!(!args.contains(&"--create".to_string()));
}

#[test]
fn preview_takes_an_output_path_and_no_mod_directory() {
    let args = build_args(&Launch::Preview {
        out: "/w/preview.png".into(),
        map_gen: "/w/map-gen.json".into(),
        planet: Some("nauvis".into()),
        seed: Some(123456),
        size: Some(1024),
    });
    assert_eq!(args[0], "--generate-map-preview");
    assert_eq!(args[1], "/w/preview.png");
    assert!(args.contains(&"--map-preview-planet".to_string()));
    assert!(args.contains(&"nauvis".to_string()));
    assert!(args.contains(&"123456".to_string()));
    assert!(!args.contains(&"--mod-directory".to_string()));
}

#[test]
fn preview_omits_optional_flags_that_were_not_set() {
    let args = build_args(&Launch::Preview {
        out: "/w/preview.png".into(),
        map_gen: "/w/map-gen.json".into(),
        planet: None,
        seed: None,
        size: None,
    });
    assert!(!args.contains(&"--map-preview-planet".to_string()));
    assert!(!args.contains(&"--map-gen-seed".to_string()));
    assert!(!args.contains(&"--map-preview-size".to_string()));
}
