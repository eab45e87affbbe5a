use factorio_oracle::install::{
    candidate_roots, layout_candidates, matches_version, resolve_layout, select, DiscoveredInstall,
    InstallLayout, RootKind,
};
use factorio_oracle::version::parse_version_line;

// The filesystem decides which candidate is usable; these tests state that
// decision directly, as the caller would after looking at the disk.

#[test]
fn resolves_a_macos_app_bundle() {
    let app = "/t/factorio.app";
    let layout = resolve_layout(app, RootKind::Bundle, &vec![true]).expect("should resolve");
    assert_eq!(layout.binary, "/t/factorio.app/Contents/MacOS/factorio");
    assert_eq!(layout.data_dir, "/t/factorio.app/Contents/data");
    assert_eq!(layout.doc_dir, "/t/factorio.app/Contents/doc-html");
}

#[test]
fn resolves_a_linux_install_directory() {
    // Only the extensionless binary exists, so the `.exe` candidate is unusable.
    let root = "/t/factorio";
    let layout =
        resolve_layout(root, RootKind::Directory, &vec![false, true]).expect("should resolve");
    assert_eq!(layout.binary, "/t/factorio/bin/x64/factorio");
    assert_eq!(layout.data_dir, "/t/factorio/data");
    assert_eq!(layout.doc_dir, "/t/factorio/doc-html");
}

#[test]
fn resolves_a_path_pointing_straight_at_the_binary() {
    // The bundle shape (data two levels up) does not exist; the Linux shape
    // (data three levels up) does.
    let bin = "/t/factorio/bin/x64/factorio";
    let layout = resolve_layout(bin, RootKind::Binary, &vec![false, true]).expect("should resolve");
    assert_eq!(layout.binary, bin);
    assert_eq!(layout.data_dir, "/t/factorio/data");
}

#[test]
fn resolves_a_windows_install_directory() {
    let root = "/t/Factorio";
    let layout =
        resolve_layout(root, RootKind::Directory, &vec![true, false]).expect("should resolve");
    assert_eq!(layout.binary, "/t/Factorio/bin/x64/factorio.exe");
    assert_eq!(layout.data_dir, "/t/Factorio/data");
    assert_eq!(layout.doc_dir, "/t/Factorio/doc-html");
}

#[test]
fn a_linux_install_still_wins_over_the_exe_candidate() {
    let root = "/t/factorio";
    let layout =
        resolve_layout(root, RootKind::Directory, &vec![false, true]).expect("should resolve");
    assert_eq!(layout.binary, "/t/factorio/bin/x64/factorio");
}

#[test]
fn the_windows_steam_default_is_a_candidate() {
    let roots = candidate_roots("/home/someone", None);
    assert!(
        roots.contains(&r"C:\Program Files (x86)\Steam\steamapps\common\Factorio".to_string()),
        "the Steam default is missing: {roots:?}"
    );
    assert!(roots.iter().any(|r| r.contains("(x86)")));
}

#[test]
fn resolves_a_macos_bundles_binary_not_just_its_root() {
    let bin = "/t/factorio.app/Contents/MacOS/factorio";
    let layout = resolve_layout(bin, RootKind::Binary, &vec![true, false]).expect("should resolve");
    assert_eq!(layout.binary, bin);
    assert_eq!(layout.data_dir, "/t/factorio.app/Contents/data");
    assert_eq!(layout.doc_dir, "/t/factorio.app/Contents/doc-html");
}

#[test]
fn returns_none_when_the_binary_is_missing() {
    assert!(resolve_layout("/t/factorio.app", RootKind::Bundle, &vec![false]).is_none());
}

#[test]
fn returns_none_for_a_path_that_does_not_exist() {
    // A path that does not exist is a plain directory with nothing in it.
    assert!(resolve_layout("/nope/not/here", RootKind::Directory, &vec![false, false]).is_none());
}

#[test]
fn env_bin_is_first_when_set() {
    let roots = candidate_roots("/home/someone", Some("/opt/custom/factorio"));
    assert_eq!(roots[0], "/opt/custom/factorio");
}

#[test]
fn covers_every_candidate_the_four_repos_used() {
    let roots = candidate_roots("/home/someone", None);
    let expected = [
        "/home/someone/Library/Application Support/Steam/steamapps/common/Factorio/factorio.app",
        "/Applications/factorio.app",
        "/home/someone/.steam/steam/steamapps/common/Factorio",
        "/home/someone/.factorio",
        "/opt/factorio",
    ];
    for want in expected {
        assert!(
            roots.contains(&want.to_string()),
            "missing candidate: {want}\ngot: {roots:?}"
        );
    }
}

#[test]
fn candidates_are_unique() {
    let roots = candidate_roots("/home/someone", None);
    let mut seen = roots.clone();
    seen.sort();
    seen.dedup();
    assert_eq!(seen.len(), roots.len(), "duplicate candidate in {roots:?}");
}

fn discovered(version_line: Option<&str>) -> DiscoveredInstall {
    DiscoveredInstall {
        layout: InstallLayout {
            root: "/somewhere".to_string(),
            binary: "/somewhere/bin/x64/factorio".to_string(),
            data_dir: "/somewhere/data".to_string(),
            doc_dir: "/somewhere/doc-html".to_string(),
        },
        version: version_line.and_then(parse_version_line),
    }
}

#[test]
fn an_exact_version_is_what_matches() {
    let found = discovered(Some("Version: 2.1.14 (build 87180, mac-arm64, steam)"));
    assert!(matches_version(&found, Some("2.1.14")));
    assert!(!matches_version(&found, Some("2.1.13")));
    assert!(!matches_version(&found, Some("2.1")));
}

#[test]
fn no_version_asked_for_takes_any_install_that_has_one() {
    assert!(matches_version(
        &discovered(Some("Version: 2.0.77 (build 84539, mac-arm64, full)")),
        None
    ));
}

#[test]
fn an_install_whose_binary_will_not_run_is_never_picked() {
    assert!(!matches_version(&discovered(None), None));
    assert!(!matches_version(&discovered(None), Some("2.1.14")));
}

#[test]
fn a_bundle_offers_one_candidate_and_a_directory_two() {
    assert_eq!(layout_candidates("/a.app", RootKind::Bundle).len(), 1);
    let d = layout_candidates("/f", RootKind::Directory);
    assert_eq!(d.len(), 2);
    assert_eq!(d[0].0, "/f/bin/x64/factorio.exe");
    assert_eq!(d[1].0, "/f/bin/x64/factorio");
}

#[test]
fn a_binary_at_the_filesystem_root_has_no_layout() {
    // There is no directory two levels up from `/factorio`.
    assert!(layout_candidates("/factorio", RootKind::Binary).is_empty());
}

#[test]
fn select_takes_the_first_install_of_the_asked_version() {
    let mut a = discovered(Some("Version: 2.0.77 (build 84539, mac-arm64, full)"));
    a.layout.root = "/a".to_string();
    let mut b = discovered(Some("Version: 2.1.14 (build 87180, mac-arm64, steam)"));
    b.layout.root = "/b".to_string();
    let mut c = discovered(Some("Version: 2.1.14 (build 87180, mac-arm64, steam)"));
    c.layout.root = "/c".to_string();
    let found = vec![discovered(None), a, b, c];
    assert_eq!(select(found.clone(), Some("2.1.14")).unwrap().layout.root, "/b");
    assert_eq!(select(found.clone(), None).unwrap().layout.root, "/a");
    assert!(select(found, Some("1.1.110")).is_none());
}

#[test]
fn a_root_repeated_with_a_trailing_slash_is_listed_once() {
    let bin = "/h/Library/Application Support/Steam/steamapps/common/Factorio/factorio.app/";
    let roots = candidate_roots("/h", Some(bin));
    assert_eq!(roots[0], bin);
    assert_eq!(roots[1], "/Applications/factorio.app");
}
