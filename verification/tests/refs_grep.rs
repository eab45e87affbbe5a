use factorio_oracle::refs::git::Hit;
use factorio_oracle::refs::grep::{
    fingerprint, hits_from_stdout, render, search, show, verdict, GrepReport, TagResult, Verdict,
};
use factorio_oracle::spawn::{Recorded, SpawnResult, Spawner};
use std::cell::RefCell;

/// Replays canned git output, and remembers every argument vector it was
/// handed. Keyed by tag, because a multi-tag search calls git once per
/// tag and each call has to get its own answer.
struct FakeGit {
    by_tag: Vec<(String, String)>,
    seen: RefCell<Vec<Vec<String>>>,
}

impl Spawner for FakeGit {
    fn run(
        &mut self,
        _binary: &str,
        args: &[String],
        _timeout: Option<u64>,
    ) -> Result<SpawnResult, String> {
        self.seen.borrow_mut().push(args.to_vec());
        let stdout = self
            .by_tag
            .iter()
            .find(|(tag, _)| args.contains(tag))
            .map(|(_, out)| out.clone())
            .unwrap_or_default();
        Ok(SpawnResult {
            exit_code: Some(if stdout.is_empty() { 1 } else { 0 }),
            stdout,
            stderr: String::new(),
        })
    }
}

/// The real output of `git grep -n -e support_range <tag> --
/// elevated-rails/prototypes/entity/elevated-rails.lua`, measured
/// 2026-08-17 at both tags. Identical values, identical lines.
fn elevated_rails(tag: &str) -> String {
    format!(
        "{tag}:elevated-rails/prototypes/entity/elevated-rails.lua:111:    support_range = 9,\n\
         {tag}:elevated-rails/prototypes/entity/elevated-rails.lua:309:    support_range = 11,\n"
    )
}

#[test]
fn a_trailing_newline_does_not_become_an_empty_hit() {
    let hits = hits_from_stdout("2.0.73", &elevated_rails("2.0.73"));
    assert_eq!(hits.len(), 2);
    assert_eq!(hits[0].line, 111);
    assert_eq!(hits[1].line, 309);
}

#[test]
fn one_tag_is_never_a_comparison() {
    let tags = vec![TagResult {
        tag: "2.1.14".into(),
        hits: hits_from_stdout("2.1.14", &elevated_rails("2.1.14")),
    }];
    assert_eq!(verdict(&tags), Verdict::Single);
}

#[test]
fn the_same_answer_at_two_tags_reads_as_identical() {
    // This is factorio-blueprint-editor's hand-written claim, checked.
    let tags = vec![
        TagResult {
            tag: "2.0.73".into(),
            hits: hits_from_stdout("2.0.73", &elevated_rails("2.0.73")),
        },
        TagResult {
            tag: "2.1.12".into(),
            hits: hits_from_stdout("2.1.12", &elevated_rails("2.1.12")),
        },
    ];
    assert_eq!(verdict(&tags), Verdict::Identical);
}

#[test]
fn a_changed_value_reads_as_differs() {
    let tags = vec![
        TagResult {
            tag: "2.0.73".into(),
            hits: hits_from_stdout("2.0.73", "2.0.73:a.lua:1:    support_range = 11,\n"),
        },
        TagResult {
            tag: "2.1.12".into(),
            hits: hits_from_stdout("2.1.12", "2.1.12:a.lua:1:    support_range = 12,\n"),
        },
    ];
    assert_eq!(verdict(&tags), Verdict::Differs);
}

#[test]
fn a_line_that_only_moved_is_still_identical() {
    // The question is "is this value still the same", not "is it still on
    // the same line". Including the line number would report a change
    // every time anything above the match was edited.
    let tags = vec![
        TagResult {
            tag: "2.0.73".into(),
            hits: hits_from_stdout("2.0.73", "2.0.73:a.lua:309:    support_range = 11,\n"),
        },
        TagResult {
            tag: "2.1.12".into(),
            hits: hits_from_stdout("2.1.12", "2.1.12:a.lua:402:    support_range = 11,\n"),
        },
    ];
    assert_eq!(verdict(&tags), Verdict::Identical);
}

#[test]
fn a_match_that_moved_to_another_file_is_a_difference() {
    let tags = vec![
        TagResult {
            tag: "2.0.73".into(),
            hits: hits_from_stdout("2.0.73", "2.0.73:a.lua:1:    support_range = 11,\n"),
        },
        TagResult {
            tag: "2.1.12".into(),
            hits: hits_from_stdout("2.1.12", "2.1.12:b.lua:1:    support_range = 11,\n"),
        },
    ];
    assert_eq!(verdict(&tags), Verdict::Differs);
}

#[test]
fn a_tag_matching_nothing_differs_from_one_that_matched() {
    // A value that disappeared between versions is the most important
    // difference there is, and it arrives as an empty result.
    let tags = vec![
        TagResult {
            tag: "2.0.73".into(),
            hits: hits_from_stdout("2.0.73", "2.0.73:a.lua:1:    fluidbox = {},\n"),
        },
        TagResult {
            tag: "2.1.12".into(),
            hits: vec![],
        },
    ];
    assert_eq!(verdict(&tags), Verdict::Differs);
}

#[test]
fn three_tags_all_agreeing_read_as_identical() {
    let tags = ["2.0.73", "2.1.12", "2.1.14"]
        .iter()
        .map(|t| TagResult {
            tag: (*t).to_string(),
            hits: hits_from_stdout(t, &format!("{t}:a.lua:1:    support_range = 11,\n")),
        })
        .collect::<Vec<_>>();
    assert_eq!(verdict(&tags), Verdict::Identical);
}

#[test]
fn three_tags_with_one_dissenter_read_as_differs() {
    let mut tags = ["2.0.73", "2.1.12"]
        .iter()
        .map(|t| TagResult {
            tag: (*t).to_string(),
            hits: hits_from_stdout(t, &format!("{t}:a.lua:1:    support_range = 11,\n")),
        })
        .collect::<Vec<_>>();
    tags.push(TagResult {
        tag: "2.1.14".into(),
        hits: hits_from_stdout("2.1.14", "2.1.14:a.lua:1:    support_range = 12,\n"),
    });
    assert_eq!(verdict(&tags), Verdict::Differs);
}

#[test]
fn search_calls_git_once_per_tag_and_never_checks_anything_out() {
    let mut fake = FakeGit {
        by_tag: vec![
            ("2.0.73".into(), elevated_rails("2.0.73")),
            ("2.1.12".into(), elevated_rails("2.1.12")),
        ],
        seen: RefCell::new(vec![]),
    };
    let report = search(
        &mut fake,
        "/clone",
        "support_range",
        &vec!["2.0.73".to_string(), "2.1.12".to_string()],
        &vec![],
    )
    .expect("the fake always answers");

    assert_eq!(report.tags.len(), 2);
    assert_eq!(report.verdict, Verdict::Identical);

    let seen = fake.seen.borrow();
    assert_eq!(seen.len(), 2);
    for args in seen.iter() {
        assert!(args.contains(&"grep".to_string()));
        assert!(!args
            .iter()
            .any(|a| a == "checkout" || a == "switch" || a == "reset"));
    }
}

#[test]
fn two_tags_that_both_matched_nothing_are_not_identical() {
    // Absence at both tags is not agreement. `docs/method.md` calls this
    // out directly: last man standing is not a measurement. The likeliest
    // real cause is a mistyped pattern, and reporting that as "identical"
    // hands back a positive finding for a question nobody asked.
    let tags = vec![
        TagResult {
            tag: "2.0.73".into(),
            hits: vec![],
        },
        TagResult {
            tag: "2.1.12".into(),
            hits: vec![],
        },
    ];
    assert_eq!(verdict(&tags), Verdict::NothingMatched);
}

#[test]
fn nothing_matched_renders_as_absence_rather_than_agreement() {
    let report = GrepReport {
        pattern: "zzz-not-a-real-token-zzz".into(),
        tags: vec![
            TagResult {
                tag: "2.0.73".into(),
                hits: vec![],
            },
            TagResult {
                tag: "2.1.12".into(),
                hits: vec![],
            },
        ],
        verdict: Verdict::NothingMatched,
    };
    let text = render(&report);
    assert!(text.contains("nothing matched at any of 2.0.73 and 2.1.12"));
    assert!(!text.contains("identical"));
    // And the machine-readable form, which is the one that can mislead
    // silently: a consumer keying on the verdict string must not see
    // "identical" here.
    assert_eq!(report.verdict.as_str(), "nothing-matched");
}

#[test]
fn a_tag_that_git_would_read_as_an_option_never_reaches_git() {
    // `grep_args` puts the tag as a bare positional with no `--` before
    // it, so `git grep --open-files-in-pager=<cmd>` would run a command.
    // The CLI checks this, but `search` is `pub`, so the guard belongs at
    // this boundary too.
    let mut fake = FakeGit {
        by_tag: vec![],
        seen: RefCell::new(vec![]),
    };
    let err = search(
        &mut fake,
        "/clone",
        "support_range",
        &vec!["--open-files-in-pager=touch /tmp/pwned".to_string()],
        &vec![],
    )
    .expect_err("a tag git would read as an option must be rejected");
    assert!(err.contains("not a usable tag name"));
    assert!(
        fake.seen.borrow().is_empty(),
        "it must be rejected before git is called at all"
    );
}

#[test]
fn one_tag_renders_without_a_tag_column() {
    // With one tag the output is git grep's own shape with the `<tag>:`
    // prefix removed, which is what the design asked for. It pipes into
    // anything that already reads grep.
    let report = GrepReport {
        pattern: "support_range".into(),
        tags: vec![TagResult {
            tag: "2.1.14".into(),
            hits: hits_from_stdout("2.1.14", &elevated_rails("2.1.14")),
        }],
        verdict: Verdict::Single,
    };
    // Asserted as the whole string, not with `contains`: a tag column
    // added to the output would leave every substring intact.
    let text = render(&report);
    assert_eq!(
        text,
        "elevated-rails/prototypes/entity/elevated-rails.lua:111:    support_range = 9,\n\
         elevated-rails/prototypes/entity/elevated-rails.lua:309:    support_range = 11,\n"
    );
}

#[test]
fn several_tags_render_with_a_tag_column_and_a_verdict() {
    let report = GrepReport {
        pattern: "support_range".into(),
        tags: vec![
            TagResult {
                tag: "2.0.73".into(),
                hits: hits_from_stdout("2.0.73", &elevated_rails("2.0.73")),
            },
            TagResult {
                tag: "2.1.12".into(),
                hits: hits_from_stdout("2.1.12", &elevated_rails("2.1.12")),
            },
        ],
        verdict: Verdict::Identical,
    };
    let text = render(&report);
    assert!(text.contains("2.0.73  elevated-rails/"));
    assert!(text.contains("2.1.12  elevated-rails/"));
    assert!(text.contains("identical across 2.0.73 and 2.1.12"));
}

#[test]
fn a_differing_result_says_so_without_deciding_what_it_means() {
    // The provenance split again: a machine can say the two disagree, and
    // only a human can say whether that matters.
    let report = GrepReport {
        pattern: "support_range".into(),
        tags: vec![
            TagResult {
                tag: "2.0.73".into(),
                hits: hits_from_stdout("2.0.73", "2.0.73:a.lua:1:  support_range = 11,\n"),
            },
            TagResult {
                tag: "2.1.12".into(),
                hits: hits_from_stdout("2.1.12", "2.1.12:a.lua:1:  support_range = 12,\n"),
            },
        ],
        verdict: Verdict::Differs,
    };
    let text = render(&report);
    assert!(text.contains("differs between 2.0.73 and 2.1.12"));
}

#[test]
fn a_tag_with_no_matches_is_reported_rather_than_dropped() {
    let report = GrepReport {
        pattern: "fluidbox".into(),
        tags: vec![
            TagResult {
                tag: "2.0.73".into(),
                hits: hits_from_stdout("2.0.73", "2.0.73:a.lua:1:  fluidbox = {},\n"),
            },
            TagResult {
                tag: "2.1.12".into(),
                hits: vec![],
            },
        ],
        verdict: Verdict::Differs,
    };
    let text = render(&report);
    assert!(text.contains("2.1.12  (no match)"));
}

#[test]
fn show_returns_the_file_at_that_tag() {
    struct FakeShow;
    impl Spawner for FakeShow {
        fn run(
            &mut self,
            _binary: &str,
            args: &[String],
            _timeout: Option<u64>,
        ) -> Result<SpawnResult, String> {
            assert!(args.contains(&"2.0.77:base/info.json".to_string()));
            Ok(SpawnResult {
                exit_code: Some(0),
                stdout: "{\n  \"version\": \"2.0.77\"\n}\n".into(),
                stderr: String::new(),
            })
        }
    }
    let got = show(&mut FakeShow, "/clone", "2.0.77", "base/info.json")
        .expect("the fake always answers");
    assert!(got.contains("\"version\": \"2.0.77\""));
}

#[test]
fn show_reports_a_missing_path_as_an_error() {
    // Measured: git exits 128 with "fatal: path ... does not exist in".
    struct FakeMissing;
    impl Spawner for FakeMissing {
        fn run(
            &mut self,
            _binary: &str,
            _args: &[String],
            _timeout: Option<u64>,
        ) -> Result<SpawnResult, String> {
            Ok(SpawnResult {
                exit_code: Some(128),
                stdout: String::new(),
                stderr: "fatal: path 'base/nope.lua' does not exist in '2.1.14'\n".into(),
            })
        }
    }
    let err = show(&mut FakeMissing, "/clone", "2.1.14", "base/nope.lua")
        .expect_err("128 is not success");
    assert!(err.contains("does not exist"));
}

#[test]
fn the_fingerprint_ignores_line_numbers_and_order() {
    let a = TagResult {
        tag: "2.0.73".into(),
        hits: hits_from_stdout("2.0.73", "2.0.73:b.lua:9:y\n2.0.73:a.lua:3:x\n"),
    };
    let b = TagResult {
        tag: "2.1.12".into(),
        hits: hits_from_stdout("2.1.12", "2.1.12:a.lua:30:x\n2.1.12:b.lua:90:y\n"),
    };
    let mut fa = fingerprint(&a);
    let mut fb = fingerprint(&b);
    fa.sort();
    fb.sort();
    assert_eq!(fa, fb);
    assert_eq!(verdict(&vec![a, b]), Verdict::Identical);
}

#[test]
fn a_repeated_match_counts_twice() {
    // The same line twice at one tag and once at the other is a difference.
    let a = TagResult {
        tag: "2.0.73".into(),
        hits: hits_from_stdout("2.0.73", "2.0.73:a.lua:1:x\n2.0.73:a.lua:2:x\n"),
    };
    let b = TagResult {
        tag: "2.1.12".into(),
        hits: hits_from_stdout("2.1.12", "2.1.12:a.lua:1:x\n"),
    };
    assert_eq!(verdict(&vec![a, b]), Verdict::Differs);
}

#[test]
fn a_git_failure_above_exit_one_is_an_error() {
    struct Broken;
    impl Spawner for Broken {
        fn run(&mut self, _b: &str, _a: &[String], _t: Option<u64>) -> Result<SpawnResult, String> {
            Ok(SpawnResult {
                exit_code: Some(128),
                stdout: String::new(),
                stderr: "fatal: not a git repository\n".into(),
            })
        }
    }
    let err = search(&mut Broken, "/clone", "x", &vec!["2.1.14".to_string()], &vec![])
        .expect_err("128 is a failure");
    assert_eq!(err, "git grep at 2.1.14 failed (exit 128): fatal: not a git repository");
}

#[test]
fn hits_keep_the_tag_they_were_found_at() {
    let hits = hits_from_stdout("2.1.14", "2.1.14:a.lua:5:x\n");
    assert_eq!(
        hits,
        vec![Hit {
            tag: "2.1.14".into(),
            path: "a.lua".into(),
            line: 5,
            text: "x".into()
        }]
    );
}

#[test]
fn a_recorded_runner_answers_like_the_runner_it_wraps() {
    let fake = FakeGit {
        by_tag: vec![
            ("2.0.73".into(), elevated_rails("2.0.73")),
            ("2.1.12".into(), elevated_rails("2.1.12")),
        ],
        seen: RefCell::new(vec![]),
    };
    let mut recorded = Recorded::new(fake);
    let report = search(
        &mut recorded,
        "/clone",
        "support_range",
        &vec!["2.0.73".to_string(), "2.1.12".to_string()],
        &vec![],
    )
    .expect("the fake always answers");
    assert_eq!(report.tags.len(), 2);
    assert_eq!(report.verdict, Verdict::Identical);
    assert_eq!(recorded.inner.seen.borrow().len(), 2);
}
