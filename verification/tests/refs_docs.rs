use factorio_oracle::refs::docs::{
    cache_path, curl_args, fetch_check, fetch_outcome, install_path, locate, part_path,
    safe_relative, url, DocsSource, FETCH_TIMEOUT_SECS,
};
use factorio_oracle::spawn::SpawnResult;

#[test]
fn the_url_is_the_version_then_the_path() {
    assert_eq!(
        url("2.0.45", "runtime-api.json"),
        "https://lua-api.factorio.com/2.0.45/runtime-api.json"
    );
    assert_eq!(
        url("2.0.45", "auxiliary/noise-expressions.html"),
        "https://lua-api.factorio.com/2.0.45/auxiliary/noise-expressions.html"
    );
}

#[test]
fn real_doc_paths_are_accepted() {
    for path in [
        "runtime-api.json",
        "prototype-api.json",
        "defines.html",
        "auxiliary/noise-expressions.html",
    ] {
        assert!(safe_relative(path), "{path} should be accepted");
    }
}

#[test]
fn a_path_that_could_escape_the_cache_is_rejected() {
    assert!(!safe_relative("../../../etc/passwd"));
    assert!(!safe_relative("a/../../b"));
    assert!(!safe_relative("/etc/passwd"));
    assert!(!safe_relative("a//b"));
    assert!(!safe_relative("./a"));
    assert!(!safe_relative(""));
}

#[test]
fn a_backslash_is_rejected_because_windows_treats_it_as_a_separator() {
    assert!(!safe_relative("..\\..\\etc"));
    assert!(!safe_relative("auxiliary\\noise-expressions.html"));
}

#[test]
fn a_drive_letter_is_rejected_because_it_replaces_a_path_rather_than_joining() {
    assert!(!safe_relative("C:/whatever"));
    assert!(!safe_relative("C:"));
    assert!(!safe_relative("classes/Lua:Entity.html"));
}

#[test]
fn a_path_that_curl_would_read_as_an_option_is_rejected() {
    assert!(!safe_relative("-o/tmp/pwned"));
}

#[test]
fn an_installed_version_answers_from_its_own_doc_dir() {
    // The doc dir holds the file, so it answers. No network, no cache.
    let got = locate(
        Some("/t/doc-html"),
        true,
        "/cache",
        "2.1.14",
        "runtime-api.json",
        false,
    );
    assert_eq!(got, DocsSource::Install("/t/doc-html/runtime-api.json".to_string()));
}

#[test]
fn an_installed_version_missing_that_one_file_still_fetches_it() {
    let got = locate(
        Some("/t/doc-html"),
        false,
        "/cache",
        "2.1.14",
        "runtime-api.json",
        false,
    );
    assert!(matches!(got, DocsSource::Fetch { .. }));
}

#[test]
fn an_already_cached_file_is_used_before_the_network() {
    let path = cache_path("/c", "2.0.45", "runtime-api.json");
    let got = locate(None, false, "/c", "2.0.45", "runtime-api.json", true);
    assert_eq!(got, DocsSource::Cache(path));
}

#[test]
fn an_uncached_file_names_the_url_and_where_it_goes() {
    let got = locate(None, false, "/c", "2.0.45", "runtime-api.json", false);
    assert_eq!(
        got,
        DocsSource::Fetch {
            url: "https://lua-api.factorio.com/2.0.45/runtime-api.json".into(),
            into: cache_path("/c", "2.0.45", "runtime-api.json"),
        }
    );
}

#[test]
fn the_cache_tree_mirrors_the_docs_tree() {
    assert_eq!(
        cache_path("/c", "2.0.45", "auxiliary/noise-expressions.html"),
        "/c/docs/2.0.45/auxiliary/noise-expressions.html"
    );
}

#[test]
fn the_install_tree_is_the_docs_tree() {
    assert_eq!(
        install_path("/t/doc-html", "auxiliary/noise-expressions.html"),
        "/t/doc-html/auxiliary/noise-expressions.html"
    );
}

#[test]
fn curl_fails_on_an_error_status_and_writes_to_a_file() {
    let args = curl_args("https://x/y.json", "/tmp/y.json.part");
    assert!(args.contains(&"-fsSL".to_string()));
    assert!(args.contains(&"-o".to_string()));
    assert!(args.contains(&"/tmp/y.json.part".to_string()));
    assert_eq!(args.last().unwrap(), "https://x/y.json");
}

#[test]
fn curl_gets_a_time_limit() {
    let args = curl_args("https://x/y.json", "/tmp/y.json.part");
    assert_eq!(
        args,
        vec!["-fsSL", "--max-time", "120", "-o", "/tmp/y.json.part", "https://x/y.json"]
    );
    assert_eq!(FETCH_TIMEOUT_SECS, 120);
}

#[test]
fn a_fetch_writes_to_a_part_file_first() {
    let into = part_path(&cache_path("/c", "2.0.45", "runtime-api.json"));
    assert!(into.ends_with(".part"), "curl should write to {into}");
    assert_eq!(into, "/c/docs/2.0.45/runtime-api.json.part");
}

#[test]
fn a_version_that_could_escape_the_cache_is_rejected() {
    let err = fetch_check("..", "runtime-api.json")
        .expect_err("a version that is a path component must be rejected");
    assert!(err.contains("not a usable version"));
}

#[test]
fn an_unsafe_docs_path_is_rejected_before_a_fetch() {
    assert_eq!(
        fetch_check("2.0.45", "../x").unwrap_err(),
        "../x is not a usable docs path"
    );
    assert!(fetch_check("2.0.45", "runtime-api.json").is_ok());
}

#[test]
fn a_failed_fetch_leaves_nothing_behind_and_says_what_curl_said() {
    let out = SpawnResult {
        exit_code: Some(56),
        stdout: String::new(),
        stderr: "curl: (56) The requested URL returned error: 404\n".into(),
    };
    let err = fetch_outcome("https://lua-api.factorio.com/9.9.9/runtime-api.json", &out)
        .expect_err("a 404 is not success");
    assert!(err.contains("404"));
    assert_eq!(
        err,
        "could not fetch https://lua-api.factorio.com/9.9.9/runtime-api.json: curl: (56) The requested URL returned error: 404"
    );
}

#[test]
fn a_clean_curl_exit_is_success() {
    let out = SpawnResult { exit_code: Some(0), stdout: String::new(), stderr: String::new() };
    assert!(fetch_outcome("https://x", &out).is_ok());
}
