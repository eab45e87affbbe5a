use factorio_oracle::json::Json;
use factorio_oracle::strmap::StrMap;
use factorio_oracle::trim::renames::{collect_renames, MigrationFile};

fn s(t: &str) -> Json {
    Json::Str(t.to_string())
}

fn num(n: &str) -> Json {
    Json::Number(n.to_string())
}

fn arr(items: Vec<Json>) -> Json {
    Json::Array(items)
}

fn obj(entries: Vec<(&str, Json)>) -> Json {
    let mut m = StrMap::new();
    for (k, v) in entries {
        m.insert(k.to_string(), v);
    }
    Json::Object(m)
}

fn pair(a: &str, b: &str) -> Json {
    arr(vec![s(a), s(b)])
}

fn file(mod_name: &str, name: &str, content: Option<Json>) -> MigrationFile {
    MigrationFile { mod_name: mod_name.to_string(), file_name: name.to_string(), content }
}

fn lookup<'a>(r: &'a StrMap<StrMap<String>>, cat: &str, from: &str) -> Option<&'a str> {
    r.get(cat).and_then(|t| t.get(from)).map(|s| s.as_str())
}

#[test]
fn reads_pairs_out_of_every_mods_migrations() {
    let files = vec![
        file("base", "2.0.0.json", Some(obj(vec![("item", arr(vec![pair("effectivity-module", "efficiency-module")]))]))),
        file("space-age", "2.0.0.json", Some(obj(vec![("entity", arr(vec![pair("bio-chemical-plant", "biochamber")]))]))),
    ];
    let renames = collect_renames(&files);
    assert_eq!(lookup(&renames, "item", "effectivity-module"), Some("efficiency-module"));
    assert_eq!(lookup(&renames, "entity", "bio-chemical-plant"), Some("biochamber"));
}

#[test]
fn a_later_migration_wins() {
    let files = vec![
        file("base", "1.1.0.json", Some(obj(vec![("item", arr(vec![pair("a", "b")]))]))),
        file("base", "2.0.0.json", Some(obj(vec![("item", arr(vec![pair("a", "c")]))]))),
    ];
    assert_eq!(lookup(&collect_renames(&files), "item", "a"), Some("c"));
}

#[test]
fn files_apply_in_sorted_order_whatever_order_they_were_found_in() {
    let files = vec![
        file("base", "2.0.0.json", Some(obj(vec![("item", arr(vec![pair("a", "c")]))]))),
        file("base", "1.1.0.json", Some(obj(vec![("item", arr(vec![pair("a", "b")]))]))),
    ];
    assert_eq!(lookup(&collect_renames(&files), "item", "a"), Some("c"));
    // A later mod directory wins over an earlier one, whatever the file names.
    let files = vec![
        file("space-age", "0.json", Some(obj(vec![("item", arr(vec![pair("a", "z")]))]))),
        file("base", "9.json", Some(obj(vec![("item", arr(vec![pair("a", "y")]))]))),
    ];
    assert_eq!(lookup(&collect_renames(&files), "item", "a"), Some("z"));
}

#[test]
fn within_one_file_the_last_pair_wins() {
    let files = vec![file("base", "1.json", Some(obj(vec![("item", arr(vec![pair("a", "b"), pair("a", "c")]))])))];
    assert_eq!(lookup(&collect_renames(&files), "item", "a"), Some("c"));
}

#[test]
fn lua_migrations_are_skipped_because_they_are_code() {
    let files = vec![
        file("base", "2.0.0.json", Some(obj(vec![("item", arr(vec![pair("a", "b")]))]))),
        file("base", "2.0.0.lua", Some(obj(vec![("item", arr(vec![pair("x", "y")]))]))),
    ];
    let renames = collect_renames(&files);
    assert_eq!(renames.get("item").unwrap().len(), 1);
}

#[test]
fn unreadable_and_odd_shaped_files_are_skipped_rather_than_fatal() {
    let files = vec![
        file("base", "0-broken.json", None),
        file("base", "1-list.json", Some(arr(vec![num("1"), num("2"), num("3")]))),
        file(
            "base",
            "2-odd.json",
            Some(obj(vec![(
                "item",
                arr(vec![arr(vec![s("only-one")]), arr(vec![s("a"), s("b"), s("c")]), arr(vec![num("1"), num("2")]), pair("a", "b")]),
            )])),
        ),
    ];
    let renames = collect_renames(&files);
    assert_eq!(renames.get("item").unwrap().len(), 1);
    assert_eq!(lookup(&renames, "item", "a"), Some("b"));
}

#[test]
fn a_missing_data_directory_gives_an_empty_table() {
    assert_eq!(collect_renames(&vec![]).len(), 0);
}

#[test]
fn categories_and_names_come_out_sorted() {
    let files = vec![file(
        "base",
        "1.json",
        Some(obj(vec![("tile", arr(vec![pair("z", "1"), pair("a", "2")])), ("item", arr(vec![pair("m", "3")]))])),
    )];
    let renames = collect_renames(&files);
    let cats: Vec<&str> = renames.entries.iter().map(|(c, _)| c.as_str()).collect();
    assert_eq!(cats, vec!["item", "tile"]);
    let tiles: Vec<&str> = renames.get("tile").unwrap().entries.iter().map(|(n, _)| n.as_str()).collect();
    assert_eq!(tiles, vec!["a", "z"]);
}

#[test]
fn a_category_that_is_not_a_list_gives_nothing() {
    let files = vec![file("base", "1.json", Some(obj(vec![("item", obj(vec![("a", s("b"))]))])))];
    assert_eq!(collect_renames(&files).len(), 0);
}
