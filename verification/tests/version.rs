use factorio_oracle::version::parse_version_line;

#[test]
fn parses_a_real_macos_steam_version_line() {
    let info = parse_version_line("Version: 2.0.77 (build 84539, mac-arm64, full)\n")
        .expect("should parse");
    assert_eq!(info.major, 2);
    assert_eq!(info.minor, 0);
    assert_eq!(info.patch, 77);
    assert_eq!(info.line, "Version: 2.0.77 (build 84539, mac-arm64, full)");
}

#[test]
fn major_minor_is_what_a_mod_declares() {
    let info = parse_version_line("Version: 2.1.14 (build 87038, mac-arm64, steam)").unwrap();
    assert_eq!(info.major_minor(), "2.1");
}

#[test]
fn ignores_the_build_number_and_arch_digits() {
    // "84539" and the "64" in "mac-arm64" are digits too. Only the
    // three-part token is a version.
    let info = parse_version_line("Version: 2.0.77 (build 84539, mac-arm64, full)").unwrap();
    assert_eq!((info.major, info.minor, info.patch), (2, 0, 77));
}

#[test]
fn reads_only_the_first_line() {
    let info =
        parse_version_line("Version: 2.0.77 (build 1, x, y)\nMap version 9.9.9").unwrap();
    assert_eq!(info.patch, 77);
}

#[test]
fn returns_none_when_there_is_no_version() {
    assert!(parse_version_line("bash: factorio: command not found").is_none());
    assert!(parse_version_line("").is_none());
}

#[test]
fn the_triple_is_what_selects_an_install() {
    let info = parse_version_line("Version: 2.1.14 (build 87038, mac-arm64, steam)").unwrap();
    assert_eq!(info.triple(), "2.1.14");
}

#[test]
fn a_version_line_is_trimmed() {
    let info = parse_version_line("  Version: 2.1.14  \r\nrest").unwrap();
    assert_eq!(info.line, "Version: 2.1.14");
}
