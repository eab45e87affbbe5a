use factorio_oracle::lua::{build_literals_prelude, long_bracket};
use factorio_oracle::strmap::StrMap;

#[test]
fn wraps_a_plain_value_at_level_zero() {
    assert_eq!(long_bracket("0eNqrVkrKT"), "[[0eNqrVkrKT]]");
}

#[test]
fn escalates_the_level_when_the_value_would_close_the_bracket() {
    // A value containing "]]" would end the literal early.
    assert_eq!(long_bracket("a]]b"), "[=[a]]b]=]");
}

#[test]
fn escalates_again_when_the_next_level_also_collides() {
    assert_eq!(long_bracket("a]]b]=]c"), "[==[a]]b]=]c]==]");
}

#[test]
fn a_closing_bracket_without_its_partner_needs_no_escalation() {
    assert_eq!(long_bracket("a]b]=c"), "[[a]b]=c]]");
}

#[test]
fn an_empty_value_is_an_empty_literal() {
    assert_eq!(long_bracket(""), "[[]]");
}

#[test]
fn prelude_declares_one_local_per_entry() {
    let mut literals = StrMap::new();
    literals.insert("blueprint".to_string(), "0eNq".to_string());
    assert_eq!(
        build_literals_prelude(&literals),
        "local blueprint = [[0eNq]]\n"
    );
}

#[test]
fn prelude_is_sorted_and_therefore_deterministic() {
    let mut literals = StrMap::new();
    literals.insert("zebra".to_string(), "z".to_string());
    literals.insert("alpha".to_string(), "a".to_string());
    assert_eq!(
        build_literals_prelude(&literals),
        "local alpha = [[a]]\nlocal zebra = [[z]]\n"
    );
}

#[test]
fn prelude_is_empty_when_there_are_no_literals() {
    assert_eq!(build_literals_prelude(&StrMap::new()), "");
}

#[test]
fn a_value_holding_a_closing_bracket_comes_through_the_prelude_verbatim() {
    let mut literals = StrMap::new();
    literals.insert("bp".to_string(), "x]]y".to_string());
    assert_eq!(build_literals_prelude(&literals), "local bp = [=[x]]y]=]\n");
}

#[test]
fn a_value_ending_in_a_bracket_takes_the_next_level() {
    // At level 0 the written closer would make `]]]`, and Lua would stop at
    // the first `]]`, one character early.
    assert_eq!(long_bracket("a]"), "[=[a]]=]");
    assert_eq!(long_bracket("]"), "[=[]]=]");
    assert_eq!(long_bracket("x]="), "[[x]=]]");
    assert_eq!(long_bracket("x]]="), "[==[x]]=]==]");
}
