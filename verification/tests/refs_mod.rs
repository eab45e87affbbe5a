use factorio_oracle::refs::{cache_dir, data_clone, valid_tag};

#[test]
fn an_explicit_cache_override_wins_over_everything() {
    let got = cache_dir(
        "/home/e",
        Some("/tmp/mycache"),
        Some("/home/e/.xdg"),
    );
    assert_eq!(got, "/tmp/mycache");
}

#[test]
fn xdg_cache_home_is_used_when_there_is_no_override() {
    // The tool's own directory is appended, so an XDG cache root holding
    // other tools' data is not written into directly.
    let got = cache_dir("/home/e", None, Some("/home/e/.xdg"));
    assert_eq!(got, "/home/e/.xdg/factorio-oracle");
}

#[test]
fn the_last_resort_cache_is_under_the_home_directory() {
    let got = cache_dir("/home/e", None, None);
    assert_eq!(got, "/home/e/.cache/factorio-oracle");
}

#[test]
fn the_clone_defaults_to_the_path_every_repo_already_uses() {
    let got = data_clone("/home/e", None);
    assert_eq!(got, "/home/e/GitHub/factorio-data");
}

#[test]
fn an_explicit_clone_path_wins() {
    let got = data_clone("/home/e", Some("/srv/factorio-data"));
    assert_eq!(got, "/srv/factorio-data");
}

#[test]
fn real_factorio_tags_are_valid() {
    for tag in ["2.1.14", "2.0.77", "1.1.110", "0.17.79"] {
        assert!(valid_tag(tag), "{tag} should be valid");
    }
}

#[test]
fn a_tag_that_could_escape_a_directory_is_rejected() {
    // `refs worktree <tag>` joins the tag onto the cache path, so this
    // one would write outside it.
    assert!(!valid_tag("../../etc"));
    assert!(!valid_tag("a/b"));
    assert!(!valid_tag("a\\b"));
}

#[test]
fn the_two_dot_names_the_filesystem_treats_specially_are_rejected() {
    // The cases the character allowlist cannot catch on its own: both are
    // made only of dots, which the allowlist permits. `cache.join("..")`
    // resolves to the cache's parent.
    assert!(!valid_tag(".."));
    assert!(!valid_tag("."));
    // A name that is only dots but means nothing special stays legal:
    // `join("...")` makes a directory literally called "...".
    assert!(valid_tag("..."));
}

#[test]
fn a_tag_that_git_would_read_as_an_option_is_rejected() {
    assert!(!valid_tag("--upload-pack=touch /tmp/pwned"));
    assert!(!valid_tag("-v"));
}

#[test]
fn an_empty_tag_is_rejected() {
    assert!(!valid_tag(""));
}
