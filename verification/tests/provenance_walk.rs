use factorio_oracle::provenance::manifest::MANIFEST_NAME;
use factorio_oracle::provenance::{is_skipped, walk_fixtures};

/// Every file as its path components, the way a walk of the tree finds them.
fn found(paths: &[&str]) -> Vec<Vec<String>> {
    paths.iter().map(|p| p.split('/').map(|c| c.to_string()).collect()).collect()
}

#[test]
fn walks_a_tree_into_relative_forward_slash_paths() {
    let got = walk_fixtures(&found(&[
        "data/base/migrations/2.0.0.json",
        "a.json",
        "data/base/migrations/1.2.0 stack inserter rename.json",
    ]));
    assert_eq!(
        got,
        vec![
            "a.json".to_string(),
            "data/base/migrations/1.2.0 stack inserter rename.json".to_string(),
            "data/base/migrations/2.0.0.json".to_string(),
        ]
    );
}

#[test]
fn leaves_out_the_manifest_and_dotfiles() {
    let got = walk_fixtures(&found(&["a.json", MANIFEST_NAME, ".DS_Store"]));
    assert_eq!(got, vec!["a.json".to_string()]);
}

#[test]
fn leaves_out_windows_os_detritus_case_insensitively() {
    let got = walk_fixtures(&found(&[
        "a.json",
        "Thumbs.db",
        "THUMBS.DB",
        "desktop.ini",
        "Desktop.Ini",
    ]));
    assert_eq!(got, vec!["a.json".to_string()]);
}

#[test]
fn a_dot_directory_is_skipped_whole_not_just_the_dotfile() {
    let got = walk_fixtures(&found(&["a.json", ".golden/b.json"]));
    assert_eq!(got, vec!["a.json".to_string()]);
}

#[test]
fn a_manifest_below_the_root_is_a_fixture_like_any_other() {
    let got = walk_fixtures(&found(&["sub/PROVENANCE.json"]));
    assert_eq!(got, vec!["sub/PROVENANCE.json".to_string()]);
}

#[test]
fn only_the_named_detritus_is_skipped() {
    assert!(is_skipped(".git"));
    assert!(is_skipped("tHuMbS.dB"));
    assert!(!is_skipped("Thumbs.db.bak"));
    assert!(!is_skipped("thumbs"));
    assert!(!is_skipped("a.json"));
    assert!(!is_skipped(""));
}
