use factorio_oracle::provenance::manifest::{
    entry_problem, parse_triple, version_problem, FixtureEntry, MANIFEST_NAME, UNKNOWN,
};

fn entry(version: Option<&str>, evidence: Option<&str>) -> FixtureEntry {
    FixtureEntry {
        is_object: true,
        factorio_version: version.map(|v| v.to_string()),
        evidence: evidence.map(|e| e.to_string()),
    }
}

#[test]
fn keeps_keys_it_does_not_know_about() {
    // Keys beyond the two required ones are carried by the reader and never
    // judged: an entry that has them is still well formed.
    assert!(entry_problem(&entry(Some("2.1.14"), Some("stated"))).is_none());
}

#[test]
fn a_well_formed_entry_has_no_problem() {
    assert_eq!(entry_problem(&entry(Some("2.0.77"), Some("stated"))), None);
}

#[test]
fn unknown_is_a_legal_version() {
    assert_eq!(entry_problem(&entry(Some("unknown"), Some("never recorded"))), None);
}

#[test]
fn rejects_a_version_that_is_not_three_numbers_or_unknown() {
    for bad in ["2.1", "2.1.14-rc1", "v2.1.14", "2.1.14 ", ""] {
        assert!(
            entry_problem(&entry(Some(bad), Some("x"))).is_some(),
            "{bad:?} should be rejected"
        );
    }
}

#[test]
fn rejects_a_missing_or_empty_evidence() {
    assert!(entry_problem(&entry(Some("2.1.14"), None)).is_some());
    assert!(entry_problem(&entry(Some("2.1.14"), Some("   "))).is_some());
}

#[test]
fn rejects_an_entry_that_is_not_an_object() {
    let e = FixtureEntry { is_object: false, factorio_version: None, evidence: None };
    assert!(entry_problem(&e).is_some());
}

#[test]
fn parses_a_version_into_parts() {
    assert_eq!(parse_triple("2.1.14"), Some((2, 1, 14)));
    assert_eq!(parse_triple("unknown"), None);
    // std's u32 parser accepts a leading plus. A version does not.
    assert_eq!(parse_triple("+2.1.14"), None);
}

#[test]
fn each_problem_has_its_own_words() {
    let not_object = FixtureEntry { is_object: false, factorio_version: None, evidence: None };
    assert_eq!(entry_problem(&not_object).unwrap(), "entry is not an object");
    assert_eq!(
        entry_problem(&entry(None, Some("x"))).unwrap(),
        "factorioVersion is missing, or is not a string"
    );
    assert_eq!(
        entry_problem(&entry(Some("2.1.14"), None)).unwrap(),
        "evidence is missing, or is not a string"
    );
    assert_eq!(entry_problem(&entry(Some("2.1.14"), Some(" \t"))).unwrap(), "evidence is empty");
}

#[test]
fn a_bad_version_is_quoted_in_the_finding() {
    assert_eq!(
        entry_problem(&entry(Some("2.1"), Some("x"))).unwrap(),
        "factorioVersion \"2.1\" is neither \"a.b.c\" nor \"unknown\""
    );
    // Quotes and backslashes inside the version are escaped, as Debug does.
    assert_eq!(
        entry_problem(&entry(Some("a\"b\\c"), Some("x"))).unwrap(),
        "factorioVersion \"a\\\"b\\\\c\" is neither \"a.b.c\" nor \"unknown\""
    );
    assert_eq!(
        version_problem("\"v2\""),
        "factorioVersion \"v2\" is neither \"a.b.c\" nor \"unknown\""
    );
}

#[test]
fn a_version_is_checked_before_the_evidence() {
    assert!(entry_problem(&entry(Some("2.1"), None)).unwrap().contains("factorioVersion"));
}

#[test]
fn a_part_too_large_for_32_bits_does_not_parse() {
    assert_eq!(parse_triple("4294967295.0.0"), Some((4294967295, 0, 0)));
    assert_eq!(parse_triple("4294967296.0.0"), None);
    assert_eq!(parse_triple("2..14"), None);
    assert_eq!(parse_triple("2.1.14.1"), None);
    assert_eq!(parse_triple("02.01.014"), Some((2, 1, 14)));
}

#[test]
fn the_file_and_the_unknown_marker_have_fixed_names() {
    assert_eq!(MANIFEST_NAME, "PROVENANCE.json");
    assert_eq!(UNKNOWN, "unknown");
}
