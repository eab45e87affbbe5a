use factorio_oracle::provenance::check::{check, Malformed, Ratchet};
use factorio_oracle::provenance::manifest::{FixtureEntry, Manifest};
use factorio_oracle::strmap::StrMap;

fn entry(version: &str, evidence: &str) -> FixtureEntry {
    FixtureEntry {
        is_object: true,
        factorio_version: Some(version.to_string()),
        evidence: Some(evidence.to_string()),
    }
}

/// Builds a manifest from a compact description, so each test shows only
/// what it is about.
fn manifest(
    max_unknown: Option<usize>,
    fixtures: &[(&str, &str)],
    not_fixtures: &[(&str, &str)],
) -> Manifest {
    let mut f = StrMap::new();
    for (name, version) in fixtures {
        f.insert(name.to_string(), entry(version, "stated"));
    }
    let mut n = StrMap::new();
    for (name, why) in not_fixtures {
        n.insert(name.to_string(), why.to_string());
    }
    Manifest { comment: vec![], max_unknown, fixtures: f, not_fixtures: n }
}

fn names(v: &[&str]) -> Vec<String> {
    v.iter().map(|s| s.to_string()).collect()
}

#[test]
fn a_directory_that_matches_its_manifest_passes() {
    let m = manifest(Some(0), &[("a.json", "2.1.14")], &[("README.md", "prose")]);
    let report = check(&m, &names(&["README.md", "a.json"]));
    assert!(report.ok(), "{report:?}");
    assert_eq!(report.fixtures, 1);
    assert_eq!(report.not_fixtures, 1);
}

#[test]
fn a_file_named_by_neither_list_is_missing() {
    let m = manifest(Some(0), &[("a.json", "2.1.14")], &[]);
    let report = check(&m, &names(&["a.json", "b.png"]));
    assert_eq!(report.missing, vec!["b.png".to_string()]);
    assert!(!report.ok());
}

#[test]
fn an_entry_with_no_file_is_dangling() {
    let m = manifest(Some(0), &[("a.json", "2.1.14"), ("gone.json", "2.1.14")], &[]);
    let report = check(&m, &names(&["a.json"]));
    assert_eq!(report.dangling, vec!["gone.json".to_string()]);
    assert!(!report.ok());
}

#[test]
fn a_not_fixture_with_no_file_is_dangling_too() {
    let m = manifest(Some(0), &[], &[("gone.md", "prose")]);
    let report = check(&m, &[]);
    assert_eq!(report.dangling, vec!["gone.md".to_string()]);
}

#[test]
fn an_entry_that_is_not_well_formed_is_reported_by_name() {
    let m = manifest(Some(0), &[("a.json", "2.1")], &[]);
    let report = check(&m, &names(&["a.json"]));
    assert_eq!(report.malformed.len(), 1);
    assert_eq!(report.malformed[0].entry, "a.json");
    assert!(report.malformed[0].problem.contains("factorioVersion"));
}

#[test]
fn a_not_fixture_must_say_why() {
    let m = manifest(Some(0), &[], &[("README.md", "   ")]);
    let report = check(&m, &names(&["README.md"]));
    assert_eq!(report.malformed.len(), 1);
    assert!(report.malformed[0].problem.contains("reason"));
}

#[test]
fn a_file_cannot_be_a_fixture_and_a_not_fixture_at_once() {
    let m = manifest(Some(0), &[("a.json", "2.1.14")], &[("a.json", "prose")]);
    let report = check(&m, &names(&["a.json"]));
    assert_eq!(report.malformed.len(), 1);
    assert!(report.malformed[0].problem.contains("both"));
}

#[test]
fn the_ratchet_holds_when_the_count_is_exactly_the_declared_number() {
    let m = manifest(Some(1), &[("a.json", "unknown")], &[]);
    let report = check(&m, &names(&["a.json"]));
    assert_eq!(report.ratchet, Ratchet::Held);
    assert_eq!(report.unknown, vec!["a.json".to_string()]);
    assert!(report.ok());
}

#[test]
fn the_ratchet_fails_when_another_unknown_arrives() {
    let m = manifest(Some(1), &[("a.json", "unknown"), ("b.json", "unknown")], &[]);
    let report = check(&m, &names(&["a.json", "b.json"]));
    assert_eq!(report.ratchet, Ratchet::Exceeded { count: 2, max: 1 });
    assert!(!report.ok());
}

#[test]
fn the_ratchet_also_fails_when_a_gap_is_closed_and_the_number_is_not_lowered() {
    let m = manifest(Some(1), &[("a.json", "2.1.14")], &[]);
    let report = check(&m, &names(&["a.json"]));
    assert_eq!(report.ratchet, Ratchet::Slack { count: 0, max: 1 });
    assert!(!report.ok());
}

#[test]
fn a_manifest_with_no_ratchet_is_a_finding_of_its_own() {
    let mut f = StrMap::new();
    f.insert("a.json".to_string(), entry("unknown", "x"));
    let m = Manifest { comment: vec![], max_unknown: None, fixtures: f, not_fixtures: StrMap::new() };
    let report = check(&m, &names(&["a.json"]));
    assert_eq!(report.ratchet, Ratchet::Undeclared { count: 1 });
    assert!(!report.ok());
}

#[test]
fn every_list_comes_back_sorted() {
    let m = manifest(Some(0), &[], &[]);
    let report = check(&m, &names(&["b.json", "a.json"]));
    assert_eq!(report.missing, vec!["a.json".to_string(), "b.json".to_string()]);
}

#[test]
fn malformed_is_sorted_across_the_fixtures_and_not_fixtures_passes() {
    // `z.json` (a malformed fixture) sorts after `a.md` (a not-fixture with
    // no reason), though the fixtures are looked at first.
    let m = manifest(Some(0), &[("z.json", "2.1")], &[("a.md", "   ")]);
    let report = check(&m, &names(&["z.json", "a.md"]));
    let names: Vec<&str> = report.malformed.iter().map(|e| e.entry.as_str()).collect();
    assert_eq!(names, vec!["a.md", "z.json"]);
}

#[test]
fn to_json_reports_the_ok_ratchet() {
    let m = manifest(Some(1), &[("a.json", "unknown")], &[]);
    let report = check(&m, &names(&["a.json"]));
    assert!(report.ok());
    assert_eq!(report.ratchet.name(), "ok");
    assert_eq!(report.max_unknown(), Some(1));
    assert_eq!(report.unknown, vec!["a.json".to_string()]);
}

#[test]
fn to_json_reports_the_exceeded_ratchet() {
    let m = manifest(Some(0), &[("a.json", "unknown"), ("b.json", "unknown")], &[]);
    let report = check(&m, &names(&["a.json", "b.json"]));
    assert!(!report.ok());
    assert_eq!(report.ratchet.name(), "exceeded");
    // The declared cap, not the count.
    assert_eq!(report.max_unknown(), Some(0));
}

#[test]
fn to_json_reports_the_slack_ratchet() {
    let m = manifest(Some(1), &[("a.json", "2.1.14")], &[]);
    let report = check(&m, &names(&["a.json"]));
    assert!(!report.ok());
    assert_eq!(report.ratchet.name(), "slack");
    assert_eq!(report.max_unknown(), Some(1));
    assert!(report.unknown.is_empty());
}

#[test]
fn to_json_reports_the_undeclared_ratchet_with_a_null_max_unknown() {
    let m = manifest(None, &[("a.json", "unknown")], &[]);
    let report = check(&m, &names(&["a.json"]));
    assert!(!report.ok());
    assert_eq!(report.ratchet.name(), "undeclared");
    assert_eq!(report.max_unknown(), None);
}

#[test]
fn summary_names_a_dangling_entry_when_called_directly() {
    let m = manifest(Some(0), &[("a.json", "2.1.14"), ("gone.json", "2.1.14")], &[]);
    let report = check(&m, &names(&["a.json"]));
    assert_eq!(
        report.summary(),
        vec!["entry names a file that is not there: gone.json".to_string()]
    );
}

#[test]
fn summary_states_the_exceeded_ratchet_with_both_numbers() {
    let m = manifest(Some(1), &[("a.json", "unknown"), ("b.json", "unknown")], &[]);
    let report = check(&m, &names(&["a.json", "b.json"]));
    assert_eq!(
        report.summary(),
        vec![
            "2 entries record an unknown version, and the manifest allows 1. \
             Re-capture against a known binary rather than raising maxUnknown."
                .to_string()
        ]
    );
}

#[test]
fn summary_says_how_far_to_lower_a_slack_ratchet() {
    let m = manifest(Some(3), &[("a.json", "unknown")], &[]);
    let report = check(&m, &names(&["a.json"]));
    assert_eq!(
        report.summary(),
        vec![
            "the manifest allows 3 unknown entries and there are now 1. \
             Lower maxUnknown to 1 so the number can only keep falling."
                .to_string()
        ]
    );
}

#[test]
fn summary_says_what_to_declare_when_there_is_no_ratchet() {
    let m = manifest(None, &[("a.json", "unknown"), ("b.json", "2.1.14")], &[]);
    let report = check(&m, &names(&["a.json", "b.json"]));
    assert_eq!(
        report.summary(),
        vec![
            "the manifest declares no maxUnknown. There are 1 unknown entries today, \
             so add \"maxUnknown\": 1 to lock that in."
                .to_string()
        ]
    );
}

#[test]
fn summary_lists_every_kind_of_finding_in_order() {
    let m = manifest(Some(0), &[("a.json", "2.1"), ("gone.json", "2.1.14")], &[("a.json", "x")]);
    let report = check(&m, &names(&["a.json", "new.png"]));
    assert_eq!(
        report.summary(),
        vec![
            "no provenance entry: new.png".to_string(),
            "entry names a file that is not there: gone.json".to_string(),
            "a.json: named as both a fixture and a not-fixture".to_string(),
            "a.json: factorioVersion \"2.1\" is neither \"a.b.c\" nor \"unknown\"".to_string(),
        ]
    );
    assert_eq!(
        report.malformed,
        vec![
            Malformed {
                entry: "a.json".into(),
                problem: "named as both a fixture and a not-fixture".into()
            },
            Malformed {
                entry: "a.json".into(),
                problem: "factorioVersion \"2.1\" is neither \"a.b.c\" nor \"unknown\"".into()
            },
        ]
    );
}

#[test]
fn a_file_listed_twice_on_disk_is_reported_once() {
    let m = manifest(Some(0), &[], &[]);
    let report = check(&m, &names(&["b", "a", "b"]));
    assert_eq!(report.missing, names(&["a", "b"]));
}

#[test]
fn an_entry_that_is_not_an_object_is_malformed_and_never_unknown() {
    let mut f = StrMap::new();
    f.insert(
        "a.json".to_string(),
        FixtureEntry { is_object: false, factorio_version: None, evidence: None },
    );
    let m = Manifest { comment: vec![], max_unknown: Some(0), fixtures: f, not_fixtures: StrMap::new() };
    let report = check(&m, &names(&["a.json"]));
    assert_eq!(report.malformed[0].problem, "entry is not an object");
    assert!(report.unknown.is_empty());
    assert_eq!(report.ratchet, Ratchet::Held);
}
