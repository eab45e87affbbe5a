use factorio_oracle::provenance::manifest::{FixtureEntry, Manifest};
use factorio_oracle::provenance::report::{compare, render, Standing};
use factorio_oracle::strmap::StrMap;

fn manifest(fixtures: &[(&str, &str)]) -> Manifest {
    let mut f = StrMap::new();
    for (name, version) in fixtures {
        f.insert(
            name.to_string(),
            FixtureEntry {
                is_object: true,
                factorio_version: Some(version.to_string()),
                evidence: Some("stated".to_string()),
            },
        );
    }
    Manifest { comment: vec![], max_unknown: None, fixtures: f, not_fixtures: StrMap::new() }
}

#[test]
fn groups_by_recorded_version_oldest_first() {
    let m = manifest(&[("new.json", "2.1.14"), ("old.json", "2.1.9"), ("mid.json", "2.1.11")]);
    let r = compare(&m, "2.1.14");
    let versions: Vec<&str> = r.groups.iter().map(|g| g.version.as_str()).collect();
    assert_eq!(versions, vec!["2.1.9", "2.1.11", "2.1.14"]);
}

#[test]
fn sorts_by_number_and_not_by_string() {
    let m = manifest(&[("a.json", "2.1.14"), ("b.json", "2.1.9")]);
    let r = compare(&m, "2.1.14");
    assert_eq!(r.groups[0].version, "2.1.9");
}

#[test]
fn counts_only_the_fixtures_older_than_the_binary_as_stale() {
    let m = manifest(&[("a.json", "2.1.11"), ("b.json", "2.1.11"), ("c.json", "2.1.14")]);
    let r = compare(&m, "2.1.14");
    assert_eq!(r.stale, 2);
}

#[test]
fn a_fixture_newer_than_the_binary_is_neither_current_nor_stale() {
    let m = manifest(&[("a.json", "2.1.14")]);
    let r = compare(&m, "2.0.77");
    assert_eq!(r.groups[0].standing, Standing::NewerThanBinary);
    assert_eq!(r.stale, 0);
}

#[test]
fn unknown_entries_are_listed_apart_from_the_versions() {
    let m = manifest(&[("a.json", "unknown"), ("b.json", "2.1.14")]);
    let r = compare(&m, "2.1.14");
    assert_eq!(r.unknown, vec!["a.json".to_string()]);
    assert_eq!(r.groups.len(), 1);
}

#[test]
fn a_version_that_will_not_parse_is_treated_as_unknown_rather_than_dropped() {
    let m = manifest(&[("a.json", "2.1")]);
    let r = compare(&m, "2.1.14");
    assert_eq!(r.unknown, vec!["a.json".to_string()]);
}

#[test]
fn the_rendered_report_names_the_binary_and_every_group() {
    let m = manifest(&[("a.json", "2.1.11"), ("b.json", "2.1.14")]);
    let text = render(&compare(&m, "2.1.14"));
    assert!(text.contains("2.1.14"));
    assert!(text.contains("2.1.11"));
    assert!(text.contains("1 fixture(s) predate the installed binary"));
}

#[test]
fn a_clean_report_says_so_instead_of_printing_a_warning() {
    let m = manifest(&[("a.json", "2.1.14")]);
    let text = render(&compare(&m, "2.1.14"));
    assert!(text.contains("No fixture predates the installed binary."));
    assert!(!text.contains("predate the installed binary. Not necessarily"));
}

#[test]
fn the_rendered_table_pads_the_version_and_the_count() {
    let m = manifest(&[
        ("a.json", "2.1.11"),
        ("b.json", "2.1.14"),
        ("c.json", "2.2.0"),
        ("d.json", "unknown"),
    ]);
    let text = render(&compare(&m, "2.1.14"));
    assert_eq!(
        text,
        "Fixture ground truth vs the installed binary (2.1.14):\n\
         \x20 2.1.11      1 fixture(s)   2.1.14 is newer\n\
         \x20 2.1.14      1 fixture(s)   current\n\
         \x20 2.2.0       1 fixture(s)   newer than 2.1.14\n\
         \x20 unknown     1 fixture(s)   provenance never recorded\n\
         \x20             d.json\n\
         \n\
         1 fixture(s) predate the installed binary. Not necessarily wrong -\n\
         re-capture only where the subsystem changed between those versions.\n"
    );
}

#[test]
fn a_group_keeps_the_first_spelling_of_its_version() {
    // `2.1.09` and `2.1.9` are one version; the group shows the spelling of
    // its first entry in name order.
    let m = manifest(&[("b.json", "2.1.9"), ("a.json", "2.1.09")]);
    let r = compare(&m, "2.1.14");
    assert_eq!(r.groups.len(), 1);
    assert_eq!(r.groups[0].version, "2.1.09");
    assert_eq!(r.groups[0].names, vec!["a.json".to_string(), "b.json".to_string()]);
    assert_eq!(r.stale, 2);
}

#[test]
fn a_binary_version_that_will_not_parse_makes_every_group_current() {
    let m = manifest(&[("a.json", "2.1.11"), ("b.json", "2.1.14")]);
    let r = compare(&m, "not a version");
    assert!(r.groups.iter().all(|g| g.standing == Standing::Current));
    assert_eq!(r.stale, 0);
}

#[test]
fn a_fixture_with_no_version_at_all_is_unknown() {
    let mut f = StrMap::new();
    f.insert(
        "a.json".to_string(),
        FixtureEntry { is_object: true, factorio_version: None, evidence: None },
    );
    let m = Manifest { comment: vec![], max_unknown: None, fixtures: f, not_fixtures: StrMap::new() };
    assert_eq!(compare(&m, "2.1.14").unknown, vec!["a.json".to_string()]);
}
