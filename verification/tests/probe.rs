use factorio_oracle::probe::{default_true, ModSpec};

#[test]
fn mod_directory_name_carries_the_version_suffix() {
    // Factorio requires <name>_<version> and it must match info.json, or
    // the mod is not loaded.
    let m = ModSpec {
        name: "bp_probe".into(),
        version: "0.0.1".into(),
        dependencies: vec![],
        control_lua: None,
        control_lua_file: None,
        data_lua: None,
        data_final_fixes_lua: None,
    };
    assert_eq!(m.dir_name(), "bp_probe_0.0.1");
}

#[test]
fn an_absent_capture_flag_means_on() {
    assert!(default_true());
}
