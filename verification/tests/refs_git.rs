use factorio_oracle::refs::git::{
    fetch_tags_args, grep_args, parse_hit, show_args, tag_exists_args, worktree_add_args,
    worktree_head_args, worktree_remove_args, FETCH_TIMEOUT_SECS, GIT_TIMEOUT_SECS,
};

fn dir() -> String {
    "/home/e/GitHub/factorio-data".to_string()
}

#[test]
fn the_tag_check_asks_for_a_commit_and_stays_quiet() {
    // Measured: this exits 0 and prints the sha for a tag that exists,
    // and exits 1 printing nothing for one that does not.
    assert_eq!(
        tag_exists_args(&dir(), "2.0.73"),
        vec![
            "-C",
            "/home/e/GitHub/factorio-data",
            "rev-parse",
            "-q",
            "--verify",
            "refs/tags/2.0.73^{commit}",
        ]
    );
}

#[test]
fn show_names_the_tag_and_the_path_together() {
    assert_eq!(
        show_args(&dir(), "2.0.77", "base/info.json"),
        vec![
            "-C",
            "/home/e/GitHub/factorio-data",
            "show",
            "2.0.77:base/info.json",
        ]
    );
}

#[test]
fn grep_disables_colour_and_guards_the_pattern() {
    // --no-color is not decoration. Someone with `color.grep = always`
    // in their git config would otherwise get ANSI escapes inside every
    // match, and the parser would carry them into the output.
    // -e keeps a pattern beginning with `-` from being read as a flag.
    assert_eq!(
        grep_args(&dir(), "2.1.12", "-fluid", &vec![]),
        vec![
            "-C",
            "/home/e/GitHub/factorio-data",
            "grep",
            "--no-color",
            "-n",
            "-e",
            "-fluid",
            "2.1.12",
        ]
    );
}

#[test]
fn grep_puts_a_pathspec_after_a_double_dash() {
    let paths = vec!["elevated-rails/prototypes/entity/elevated-rails.lua".to_string()];
    let got = grep_args(&dir(), "2.0.73", "support_range", &paths);
    assert_eq!(got[got.len() - 2], "--");
    assert_eq!(
        got[got.len() - 1],
        "elevated-rails/prototypes/entity/elevated-rails.lua"
    );
}

#[test]
fn fetching_tags_touches_no_working_tree() {
    let got = fetch_tags_args(&dir());
    assert!(got.contains(&"fetch".to_string()));
    assert!(got.contains(&"--tags".to_string()));
    // The rule the whole module holds. A fetch writes refs and objects
    // and nothing else, which is why it is the only write this tool makes
    // to a clone it does not own.
    assert!(!got
        .iter()
        .any(|a| a == "checkout" || a == "switch" || a == "reset"));
}

#[test]
fn adding_a_worktree_always_detaches() {
    // Measured: git detaches on its own for a tag, because a tag is not a
    // branch. The flag is passed anyway so the behaviour cannot change
    // the day a branch shares a name with a tag.
    assert_eq!(
        worktree_add_args(
            &dir(),
            "/home/e/.cache/factorio-oracle/worktrees/2.0.77",
            "2.0.77"
        ),
        vec![
            "-C",
            "/home/e/GitHub/factorio-data",
            "worktree",
            "add",
            "--detach",
            "/home/e/.cache/factorio-oracle/worktrees/2.0.77",
            "2.0.77",
        ]
    );
}

#[test]
fn removing_a_worktree_names_the_path_not_the_tag() {
    // git tracks worktrees by path. Removing one is also what clears the
    // admin entry this tool wrote into a clone it does not own.
    assert_eq!(
        worktree_remove_args(
            &dir(),
            "/home/e/.cache/factorio-oracle/worktrees/2.0.77"
        ),
        vec![
            "-C",
            "/home/e/GitHub/factorio-data",
            "worktree",
            "remove",
            "/home/e/.cache/factorio-oracle/worktrees/2.0.77",
        ]
    );
}

#[test]
fn checking_a_worktrees_head_reads_the_tree_not_the_shared_clone() {
    // The path named is the worktree, not the clone this whole module is
    // careful never to write to - one read answers both what the tree is
    // at and what the tag resolves to now.
    assert_eq!(
        worktree_head_args(
            "/home/e/.cache/factorio-oracle/worktrees/2.0.77",
            "2.0.77"
        ),
        vec![
            "-C",
            "/home/e/.cache/factorio-oracle/worktrees/2.0.77",
            "rev-parse",
            "HEAD",
            "refs/tags/2.0.77^{commit}",
        ]
    );
}

#[test]
fn a_grep_line_parses_into_its_four_parts() {
    // Copied verbatim from a real run at the 2.0.73 tag.
    let hit = parse_hit(
        "2.0.73",
        "2.0.73:elevated-rails/prototypes/entity/elevated-rails.lua:309:    support_range = 11,",
    )
    .expect("this is the exact shape git produced");
    assert_eq!(hit.tag, "2.0.73");
    assert_eq!(
        hit.path,
        "elevated-rails/prototypes/entity/elevated-rails.lua"
    );
    assert_eq!(hit.line, 309);
    assert_eq!(hit.text, "    support_range = 11,");
}

#[test]
fn colons_inside_the_matched_text_are_kept() {
    // Only the first two colons after the tag are separators. A Lua table
    // key or a URL in a comment holds more, and they belong to the text.
    let hit = parse_hit("2.1.14", "2.1.14:base/x.lua:7:  url = \"http://a:80/b\",")
        .expect("should parse");
    assert_eq!(hit.line, 7);
    assert_eq!(hit.text, "  url = \"http://a:80/b\",");
}

#[test]
fn a_line_for_a_different_tag_is_not_parsed() {
    // The tag is passed in rather than guessed. Guessing would mean
    // splitting on the first colon, which a tag holding one would break.
    assert!(parse_hit("2.1.14", "2.0.73:base/x.lua:7:text").is_none());
}

#[test]
fn a_line_with_no_line_number_is_not_parsed() {
    assert!(parse_hit("2.1.14", "2.1.14:base/x.lua:notanumber:text").is_none());
}

#[test]
fn an_empty_line_is_not_parsed() {
    // git's stdout ends with a newline, so splitting it yields a trailing
    // empty string on every successful grep.
    assert!(parse_hit("2.1.14", "").is_none());
}

#[test]
fn the_timeouts_are_set_and_the_fetch_gets_the_longer_one() {
    // A git call with no time limit can hang forever, so every one has one.
    assert!(GIT_TIMEOUT_SECS < FETCH_TIMEOUT_SECS);
    assert_eq!(GIT_TIMEOUT_SECS, 30);
    assert_eq!(FETCH_TIMEOUT_SECS, 180);
}

#[test]
fn a_line_with_no_text_after_the_number_still_parses() {
    let hit = parse_hit("2.1.14", "2.1.14:base/x.lua:7:").expect("should parse");
    assert_eq!(hit.line, 7);
    assert_eq!(hit.text, "");
}

#[test]
fn a_line_number_past_u32_is_not_parsed() {
    assert!(parse_hit("2.1.14", "2.1.14:base/x.lua:4294967296:text").is_none());
}
