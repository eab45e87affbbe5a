use factorio_oracle::refs::worktree::{
    add_outcome, ensure, remove, reuse_outcome, worktree_path, TreeState,
};
use factorio_oracle::spawn::{SpawnResult, Spawner};
use std::cell::RefCell;

struct FakeGit {
    exit: i32,
    stdout: String,
    stderr: String,
    seen: RefCell<Vec<Vec<String>>>,
}

impl FakeGit {
    fn ok() -> Self {
        FakeGit {
            exit: 0,
            stdout: String::new(),
            stderr: String::new(),
            seen: RefCell::new(vec![]),
        }
    }

    /// A fake that answers `rev-parse` with two shas, which is what the
    /// reuse check reads.
    fn speaking(stdout: &str) -> Self {
        FakeGit {
            exit: 0,
            stdout: stdout.to_string(),
            stderr: String::new(),
            seen: RefCell::new(vec![]),
        }
    }
}

impl Spawner for FakeGit {
    fn run(
        &mut self,
        _binary: &str,
        args: &[String],
        _timeout: Option<u64>,
    ) -> Result<SpawnResult, String> {
        self.seen.borrow_mut().push(args.to_vec());
        Ok(SpawnResult {
            exit_code: Some(self.exit),
            stdout: self.stdout.clone(),
            stderr: self.stderr.clone(),
        })
    }
}

/// A real commit from the 2.0.77 tag.
const AT_2_0_77: &str = "ce6741a54c3199caad4ed147e9987fd8d5653fdf";
/// And one from 2.1.14, for the case where the tag moved.
const AT_2_1_14: &str = "a78495471dfbe7848c9c7be752e32f5065e072cb";

const CACHE: &str = "/home/e/.cache/factorio-oracle";

#[test]
fn a_worktree_is_named_for_its_tag_under_the_cache() {
    assert_eq!(
        worktree_path(CACHE, "2.0.77"),
        "/home/e/.cache/factorio-oracle/worktrees/2.0.77"
    );
}

#[test]
fn an_existing_tree_is_reused_after_one_read_confirming_its_tag() {
    let path = worktree_path(CACHE, "2.0.77");
    let mut fake = FakeGit::speaking(&format!("{AT_2_0_77}\n{AT_2_0_77}\n"));
    let got = ensure(&mut fake, "/clone", CACHE, "2.0.77", TreeState::Checkout)
        .expect("a tree already at that tag is reused");
    assert_eq!(got, path);

    let seen = fake.seen.borrow();
    assert_eq!(seen.len(), 1, "reuse should cost one call, not two");
    assert!(seen[0].contains(&"rev-parse".to_string()));
    assert!(!seen[0]
        .iter()
        .any(|a| a == "add" || a == "checkout" || a == "switch" || a == "reset"));
}

#[test]
fn a_tree_whose_tag_has_moved_is_reported_rather_than_reused() {
    let mut fake = FakeGit::speaking(&format!("{AT_2_0_77}\n{AT_2_1_14}\n"));
    let message = ensure(&mut fake, "/clone", CACHE, "2.0.77", TreeState::Checkout)
        .expect_err("a moved tag must not be reused silently");
    assert!(message.contains("The tag moved"), "got: {message}");
    assert!(message.contains("--remove"), "it should say how to fix it");
}

#[test]
fn a_missing_tree_is_added_detached() {
    let mut fake = FakeGit::ok();
    let got = ensure(&mut fake, "/clone", CACHE, "2.0.77", TreeState::Missing)
        .expect("the fake always answers");
    assert_eq!(got, worktree_path(CACHE, "2.0.77"));

    let seen = fake.seen.borrow();
    assert_eq!(seen.len(), 1);
    assert!(seen[0].contains(&"worktree".to_string()));
    assert!(seen[0].contains(&"add".to_string()));
    assert!(seen[0].contains(&"--detach".to_string()));
    assert!(!seen[0]
        .iter()
        .any(|a| a == "checkout" || a == "switch" || a == "reset"));
}

#[test]
fn a_directory_that_exists_but_is_not_a_checkout_is_an_error() {
    let mut fake = FakeGit::ok();
    let err = ensure(&mut fake, "/clone", CACHE, "2.0.77", TreeState::NotACheckout)
        .expect_err("a directory with no .git is not a worktree");
    assert!(err.contains("not a git worktree"));
    assert!(fake.seen.borrow().is_empty(), "git is not run at all");
}

#[test]
fn a_failing_add_reports_what_git_said() {
    let mut fake = FakeGit {
        exit: 128,
        stdout: String::new(),
        stderr: "fatal: invalid reference: 9.9.9\n".into(),
        seen: RefCell::new(vec![]),
    };
    let err = ensure(&mut fake, "/clone", CACHE, "9.9.9", TreeState::Missing)
        .expect_err("128 is not success");
    assert!(err.contains("invalid reference"));
}

#[test]
fn removing_a_tree_that_is_not_there_is_not_an_error() {
    let mut fake = FakeGit::ok();
    remove(&mut fake, "/clone", CACHE, "2.0.77", false).expect("nothing to do");
    assert!(fake.seen.borrow().is_empty());
}

#[test]
fn removing_an_existing_tree_calls_git_so_the_clone_stays_tidy() {
    let mut fake = FakeGit::ok();
    remove(&mut fake, "/clone", CACHE, "2.0.77", true).expect("the fake answers");

    let seen = fake.seen.borrow();
    assert_eq!(seen.len(), 1);
    assert!(seen[0].contains(&"worktree".to_string()));
    assert!(seen[0].contains(&"remove".to_string()));
}

#[test]
fn reuse_needs_two_shas() {
    let out = SpawnResult { exit_code: Some(0), stdout: format!("{AT_2_0_77}\n"), stderr: String::new() };
    let err = reuse_outcome("/w/2.0.77", "2.0.77", &out).unwrap_err();
    assert!(err.contains("could not read two commits"), "{err}");
}

#[test]
fn a_moved_tag_names_both_commits() {
    let out = SpawnResult {
        exit_code: Some(0),
        stdout: format!("{AT_2_0_77}\n{AT_2_1_14}\n"),
        stderr: String::new(),
    };
    assert_eq!(
        reuse_outcome("/w/2.0.77", "2.0.77", &out).unwrap_err(),
        format!(
            "/w/2.0.77 is at {AT_2_0_77} but tag 2.0.77 is now {AT_2_1_14}. The tag moved. Run `refs worktree 2.0.77 --remove` and try again."
        )
    );
}

#[test]
fn a_clean_add_hands_back_the_path() {
    let out = SpawnResult { exit_code: Some(0), stdout: String::new(), stderr: String::new() };
    assert_eq!(add_outcome("/w/2.0.77", "2.0.77", &out).unwrap(), "/w/2.0.77");
}
