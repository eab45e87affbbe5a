use factorio_oracle::probe::ModSpec;
use factorio_oracle::scaffold::{build_config_ini, build_info_json, build_mod_list, ACTIVE_MODS_PRELUDE};

fn sample() -> ModSpec {
    ModSpec {
        name: "bp_probe".into(),
        version: "0.0.1".into(),
        dependencies: vec!["base".into()],
        control_lua: Some("script.on_init(function() end)".into()),
        control_lua_file: None,
        data_lua: None,
        data_final_fixes_lua: None,
    }
}

#[test]
fn info_json_takes_the_version_from_the_binary() {
    let info = build_info_json(&sample(), "2.0");
    assert_eq!(info.factorio_version, "2.0");
    assert_eq!(info.name, "bp_probe");
    assert_eq!(info.version, "0.0.1");
    assert_eq!(info.dependencies[0], "base");
    assert_eq!(info.title, "bp_probe");
    assert_eq!(info.author, "factorio-oracle");
}

#[test]
fn info_json_version_is_never_hardcoded() {
    // The same mod against a different binary must declare a different
    // version. Getting this wrong makes Factorio skip the mod in silence.
    let a = build_info_json(&sample(), "2.0");
    let b = build_info_json(&sample(), "2.1");
    assert_ne!(a.factorio_version, b.factorio_version);
}

#[test]
fn mod_list_with_no_probe_enables_only_base() {
    let list = build_mod_list(None, &vec![]);
    assert_eq!(list.len(), 1);
    assert_eq!(list[0].0, "base");
    assert!(list[0].1);
}

#[test]
fn mod_list_with_a_probe_enables_both() {
    let list = build_mod_list(Some("bp_probe"), &vec![]);
    let names: Vec<&str> = list.iter().map(|m| m.0.as_str()).collect();
    assert_eq!(names, vec!["base", "bp_probe"]);
    assert!(list.iter().all(|m| m.1));
}

#[test]
fn a_mod_named_disabled_is_listed_as_disabled() {
    let list = build_mod_list(Some("p"), &vec!["space-age".to_string()]);
    assert_eq!(
        list,
        vec![("base".to_string(), true), ("p".to_string(), true), ("space-age".to_string(), false)]
    );
}

#[test]
fn config_ini_isolates_writes_and_reads_the_bundled_data() {
    let ini = build_config_ini("__PATH__executable__/../data", "/tmp/work/write");
    assert!(ini.contains("write-data=/tmp/work/write"));
    // The read-data path is written as the caller hands it in.
    assert!(ini.contains("read-data=__PATH__executable__/../data"));
    assert!(ini.starts_with("[path]"));
}

#[test]
fn the_active_mods_prelude_writes_its_own_file() {
    // It must not collide with the consumer's dump file name.
    assert!(ACTIVE_MODS_PRELUDE.contains("oracle-active-mods.json"));
    assert!(ACTIVE_MODS_PRELUDE.contains("script.active_mods"));
}

#[test]
fn the_active_mods_prelude_registers_no_event() {
    assert!(!ACTIVE_MODS_PRELUDE.contains("on_init"));
    assert!(!ACTIVE_MODS_PRELUDE.contains("on_nth_tick"));
    assert!(!ACTIVE_MODS_PRELUDE.contains("on_event"));
}

#[test]
fn config_ini_reads_the_data_directory_it_is_given() {
    let ini = build_config_ini("/opt/factorio/data", "/tmp/work/write");
    assert_eq!(ini, "[path]\nread-data=/opt/factorio/data\nwrite-data=/tmp/work/write\n");
}
