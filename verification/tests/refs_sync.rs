use factorio_oracle::refs::docs::cache_path;
use factorio_oracle::refs::sync::{
    docs_standing, fetch_tags, fetch_tags_outcome, render, tag_present, Availability, DocsStanding,
};
use factorio_oracle::spawn::{SpawnResult, Spawner};
use std::cell::RefCell;

struct FakeGit {
    /// Exit codes to hand back, in order. `rev-parse` exits 0 for a tag
    /// that is there and 1 for one that is not.
    exits: RefCell<Vec<i32>>,
    seen: RefCell<Vec<Vec<String>>>,
}

impl FakeGit {
    fn returning(exits: &[i32]) -> Self {
        FakeGit {
            exits: RefCell::new(exits.to_vec()),
            seen: RefCell::new(vec![]),
        }
    }
}

impl Spawner for FakeGit {
    fn run(
        &mut self,
        _binary: &str,
        args: &[String],
        _timeout: Option<u64>,
    ) -> Result<SpawnResult, String> {
        self.seen.borrow_mut().push(args.to_vec());
        let code = if self.exits.borrow().is_empty() {
            0
        } else {
            self.exits.borrow_mut().remove(0)
        };
        Ok(SpawnResult {
            exit_code: Some(code),
            stdout: String::new(),
            stderr: String::new(),
        })
    }
}

#[test]
fn a_tag_that_resolves_is_present() {
    let mut fake = FakeGit::returning(&[0]);
    assert!(tag_present(&mut fake, "/clone", "2.0.73").unwrap());
}

#[test]
fn a_tag_that_does_not_resolve_is_absent_rather_than_an_error() {
    let mut fake = FakeGit::returning(&[1]);
    assert!(!tag_present(&mut fake, "/clone", "9.9.9").unwrap());
}

#[test]
fn checking_a_tag_never_fetches_and_never_checks_out() {
    let mut fake = FakeGit::returning(&[0]);
    tag_present(&mut fake, "/clone", "2.0.73").unwrap();
    let seen = fake.seen.borrow();
    assert_eq!(seen.len(), 1);
    assert!(!seen[0]
        .iter()
        .any(|a| a == "fetch" || a == "checkout" || a == "switch" || a == "reset"));
}

#[test]
fn an_installed_version_reads_as_installed() {
    let got = docs_standing(Some("/c/doc-html"), true, "/c", "2.1.14", false);
    assert_eq!(got, DocsStanding::Installed("/c/doc-html".to_string()));
}

#[test]
fn a_version_with_files_in_the_cache_reads_as_cached() {
    let path = cache_path("/c", "2.0.45", "runtime-api.json");
    assert!(path.starts_with("/c/docs/2.0.45/"));
    let got = docs_standing(None, false, "/c", "2.0.45", true);
    assert_eq!(got, DocsStanding::Cached("/c/docs/2.0.45".to_string()));
}

#[test]
fn an_empty_cache_directory_does_not_count_as_cached() {
    assert_eq!(docs_standing(None, false, "/c", "2.0.45", false), DocsStanding::Absent);
}

#[test]
fn a_version_with_neither_reads_as_absent() {
    assert_eq!(docs_standing(None, false, "/c", "2.0.45", false), DocsStanding::Absent);
}

#[test]
fn an_install_whose_doc_dir_is_not_there_falls_through_to_the_cache() {
    let got = docs_standing(Some("/c/doc-html"), false, "/c", "2.0.45", true);
    assert_eq!(got, DocsStanding::Cached("/c/docs/2.0.45".to_string()));
}

fn available() -> Availability {
    Availability {
        version: "2.0.73".into(),
        clone: "/home/e/GitHub/factorio-data".to_string(),
        clone_present: true,
        tag_present: true,
        docs: DocsStanding::Absent,
    }
}

#[test]
fn a_readable_version_is_ok() {
    assert!(available().ok());
}

#[test]
fn a_missing_tag_is_not_ok() {
    let mut a = available();
    a.tag_present = false;
    assert!(!a.ok());
}

#[test]
fn a_missing_clone_is_not_ok() {
    let mut a = available();
    a.clone_present = false;
    a.tag_present = false;
    assert!(!a.ok());
}

#[test]
fn absent_docs_do_not_make_it_not_ok() {
    assert_eq!(available().docs, DocsStanding::Absent);
    assert!(available().ok());
}

#[test]
fn the_report_names_the_clone_and_says_head_was_not_moved() {
    let text = render(&available());
    assert!(text.contains("/home/e/GitHub/factorio-data"));
    assert!(text.contains("2.0.73"));
    assert!(text.contains("HEAD was not moved"));
}

#[test]
fn the_report_says_what_to_do_when_a_tag_is_missing() {
    let mut a = available();
    a.tag_present = false;
    let text = render(&a);
    assert!(text.contains("refs sync"));
}

#[test]
fn the_report_is_laid_out_in_fourteen_columns() {
    let text = render(&available());
    assert_eq!(
        text,
        "Factorio 2.0.73 reference material:\n\
         \x20 clone          /home/e/GitHub/factorio-data\n\
         \x20 tag            2.0.73 is readable\n\
         \x20 lua-api docs   not fetched yet, fetched per file on demand\n\
         \x20 -> readable at the tag. HEAD was not moved.\n"
    );
}

#[test]
fn a_missing_clone_says_where_to_get_one() {
    let mut a = available();
    a.clone_present = false;
    let text = render(&a);
    assert!(text.contains("/home/e/GitHub/factorio-data (not cloned)"));
    assert!(text.contains("FACTORIO_DATA_DIR"));
}

#[test]
fn the_docs_standing_names_are_what_a_consumer_keys_on() {
    assert_eq!(DocsStanding::Absent.as_str(), "absent");
    assert_eq!(DocsStanding::Cached("/c".into()).as_str(), "cached");
    assert_eq!(DocsStanding::Installed("/d".into()).as_str(), "installed");
}

#[test]
fn a_failed_fetch_says_what_git_said() {
    let out = SpawnResult {
        exit_code: Some(128),
        stdout: String::new(),
        stderr: "fatal: unable to access\n".into(),
    };
    assert_eq!(
        fetch_tags_outcome(&out).unwrap_err(),
        "git fetch --tags failed: fatal: unable to access"
    );
    let mut fake = FakeGit::returning(&[0]);
    assert!(fetch_tags(&mut fake, "/clone").is_ok());
    assert!(fake.seen.borrow()[0].contains(&"--tags".to_string()));
}
