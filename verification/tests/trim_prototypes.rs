use factorio_oracle::json::Json;
use factorio_oracle::strmap::StrMap;
use factorio_oracle::trim::prototypes::{find_prototype, trim_entity};
use factorio_oracle::trim::spec::TrimSpec;

fn num(n: &str) -> Json {
    Json::Number(n.to_string())
}

fn s(t: &str) -> Json {
    Json::Str(t.to_string())
}

fn arr(items: Vec<Json>) -> Json {
    Json::Array(items)
}

fn map(entries: Vec<(&str, Json)>) -> StrMap<Json> {
    let mut m = StrMap::new();
    for (k, v) in entries {
        m.insert(k.to_string(), v);
    }
    m
}

fn obj(entries: Vec<(&str, Json)>) -> Json {
    Json::Object(map(entries))
}

fn point(x: &str, y: &str) -> Json {
    arr(vec![num(x), num(y)])
}

fn square(a: &str, b: &str) -> Json {
    arr(vec![point(a, a), point(b, b)])
}

/// The shape that matters: the same name in several types, only one of
/// which is the placeable entity.
fn dump() -> StrMap<Json> {
    map(vec![
        (
            "item",
            obj(vec![
                ("pumpjack", obj(vec![("stack_size", num("20"))])),
                ("stone-wall", obj(vec![("stack_size", num("100"))])),
            ]),
        ),
        (
            "recipe",
            obj(vec![
                ("pumpjack", obj(vec![("ingredients", arr(vec![]))])),
                ("stone-wall", obj(vec![("ingredients", arr(vec![]))])),
            ]),
        ),
        ("mining-drill", obj(vec![("pumpjack", obj(vec![("collision_box", square("-1.2", "1.2"))]))])),
        ("wall", obj(vec![("stone-wall", obj(vec![("collision_box", square("-0.29", "0.29"))]))])),
        ("technology", obj(vec![("stone-wall", obj(vec![("unit", obj(vec![]))]))])),
        ("not-an-object", num("42")),
    ])
}

#[test]
fn prefers_the_candidate_that_has_a_collision_box() {
    let raw = dump();
    let (kind, proto) = find_prototype(&raw, "pumpjack").unwrap();
    assert_eq!(kind, "mining-drill");
    assert!(proto.get("collision_box").is_some());
}

#[test]
fn picks_the_entity_even_when_four_types_share_the_name() {
    let raw = dump();
    let (kind, _) = find_prototype(&raw, "stone-wall").unwrap();
    assert_eq!(kind, "wall");
}

#[test]
fn returns_none_for_a_name_no_type_has() {
    let raw = dump();
    assert!(find_prototype(&raw, "quantum-pumpjack").is_none());
}

#[test]
fn a_type_that_is_not_an_object_is_skipped_rather_than_panicking() {
    let raw = dump();
    assert!(find_prototype(&raw, "not-an-object").is_none());
}

fn strings(v: &[&str]) -> Vec<String> {
    v.iter().map(|t| t.to_string()).collect()
}

fn spec_for_tests() -> TrimSpec {
    TrimSpec {
        entities: strings(&["pumpjack"]),
        entity_fields: strings(&["collision_box", "module_slots", "energy_usage"]),
        connection_fields: strings(&["position", "positions", "flow_direction", "max_underground_distance"]),
        fluid_boxes: strings(&["fluid_box", "output_fluid_box", "input_fluid_box"]),
    }
}

fn field<'a>(v: &'a Json, k: &str) -> &'a Json {
    v.get(k).unwrap_or_else(|| panic!("no {k}"))
}

fn index(v: &Json, i: usize) -> &Json {
    match v {
        Json::Array(items) => &items[i],
        _ => panic!("not an array"),
    }
}

fn len(v: &Json) -> usize {
    match v {
        Json::Array(items) => items.len(),
        Json::Object(m) => m.len(),
        _ => panic!("not a container"),
    }
}

fn text(v: &Json) -> &str {
    match v {
        Json::Str(t) => t,
        Json::Number(t) => t,
        _ => panic!("not text"),
    }
}

#[test]
fn keeps_the_asked_for_fields_and_records_the_type() {
    let proto = obj(vec![
        ("collision_box", square("-1.2", "1.2")),
        ("module_slots", num("2")),
        ("unwanted_graphics", obj(vec![("layers", arr(vec![num("1"), num("2"), num("3")]))])),
    ]);
    let trimmed = trim_entity("mining-drill", &proto, &spec_for_tests());
    assert_eq!(text(field(&trimmed, "prototypeType")), "mining-drill");
    assert_eq!(text(field(&trimmed, "module_slots")), "2");
    assert!(trimmed.get("unwanted_graphics").is_none());
}

#[test]
fn a_field_the_prototype_does_not_have_is_skipped_not_nulled() {
    let proto = obj(vec![("collision_box", square("0", "1"))]);
    let trimmed = trim_entity("pipe", &proto, &spec_for_tests());
    assert!(trimmed.get("module_slots").is_none());
    assert!(trimmed.get("energy_usage").is_none());
    assert_eq!(len(&trimmed), 2);
}

#[test]
fn keeps_only_the_asked_for_keys_inside_a_pipe_connection() {
    let proto = obj(vec![(
        "output_fluid_box",
        obj(vec![
            (
                "pipe_connections",
                arr(vec![obj(vec![
                    ("positions", arr(vec![point("1", "-1"), point("1", "1"), point("-1", "1"), point("-1", "-1")])),
                    ("flow_direction", s("output")),
                    ("pipe_covers", obj(vec![("sheets", s("lots of sprites"))])),
                ])]),
            ),
            ("volume", num("1000")),
        ]),
    )]);
    let trimmed = trim_entity("mining-drill", &proto, &spec_for_tests());
    let conn = index(field(field(&trimmed, "output_fluid_box"), "pipe_connections"), 0);
    assert_eq!(text(field(conn, "flow_direction")), "output");
    assert_eq!(len(field(conn, "positions")), 4);
    assert!(conn.get("pipe_covers").is_none());
    // Only pipe_connections survives from the box itself.
    assert!(field(&trimmed, "output_fluid_box").get("volume").is_none());
}

#[test]
fn a_fluid_box_with_no_connections_is_left_out_entirely() {
    let proto = obj(vec![("fluid_box", obj(vec![("volume", num("100"))]))]);
    let trimmed = trim_entity("pipe", &proto, &spec_for_tests());
    assert!(trimmed.get("fluid_box").is_none());
}

#[test]
fn the_four_position_output_box_two_point_one_introduced_survives() {
    let proto = obj(vec![(
        "output_fluid_box",
        obj(vec![(
            "pipe_connections",
            arr(vec![obj(vec![
                ("direction", num("0")),
                ("positions", arr(vec![point("1", "-1"), point("1", "1"), point("-1", "1"), point("-1", "-1")])),
                ("flow_direction", s("output")),
            ])]),
        )]),
    )]);
    let mut spec = spec_for_tests();
    spec.connection_fields.push("direction".to_string());
    let trimmed = trim_entity("mining-drill", &proto, &spec);
    let conn = index(field(field(&trimmed, "output_fluid_box"), "pipe_connections"), 0);
    let positions = field(conn, "positions");
    assert_eq!(len(positions), 4);
    assert_eq!(text(index(index(positions, 0), 1)), "-1");
    assert_eq!(text(index(index(positions, 3), 0)), "-1");
    assert_eq!(text(field(conn, "direction")), "0");
}

#[test]
fn the_fallback_is_alphabetical_so_it_is_deterministic() {
    let raw = map(vec![
        ("zebra", obj(vec![("ghost", obj(vec![("a", num("1"))]))])),
        ("alpha", obj(vec![("ghost", obj(vec![("b", num("2"))]))])),
    ]);
    let (kind, _) = find_prototype(&raw, "ghost").unwrap();
    assert_eq!(kind, "alpha");
}

#[test]
fn a_copy_is_the_same_value() {
    let v = obj(vec![("a", arr(vec![num("1.5"), s("x"), Json::Null, Json::Bool(true)]))]);
    let c = v.copy();
    assert_eq!(text(index(field(&c, "a"), 0)), "1.5");
    assert_eq!(text(index(field(&c, "a"), 1)), "x");
    assert!(matches!(index(field(&c, "a"), 2), Json::Null));
    assert!(matches!(index(field(&c, "a"), 3), Json::Bool(true)));
}

#[test]
fn a_key_on_something_that_is_not_an_object_reads_as_nothing() {
    assert!(num("1").get("a").is_none());
    assert!(arr(vec![]).get("a").is_none());
}
