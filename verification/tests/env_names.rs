use brush_core::env::names::parse_nameref_subscript;
use brush_core::env::{
    valid_nameref_target_name, valid_variable_name, NameRef, NameRefFault, NameRefStrategy,
    ResolvedName,
};

#[test]
fn names_test_valid_variable_name() {
    assert!(!valid_variable_name(""));
    assert!(!valid_variable_name("1"));
    assert!(!valid_variable_name(" a"));
    assert!(!valid_variable_name(" "));

    assert!(valid_variable_name("_"));
    assert!(valid_variable_name("_a"));
    assert!(valid_variable_name("_1"));
    assert!(valid_variable_name("_a1"));
    assert!(valid_variable_name("a"));
    assert!(valid_variable_name("A"));
    assert!(valid_variable_name("a1"));
    assert!(valid_variable_name("A1"));
}

#[test]
fn names_parse_nameref_subscript_no_subscript() {
    assert_eq!(parse_nameref_subscript("foo"), ("foo", None));
    assert_eq!(parse_nameref_subscript(""), ("", None));
}

#[test]
fn names_parse_nameref_subscript_simple() {
    assert_eq!(parse_nameref_subscript("arr[2]"), ("arr", Some("2")));
    assert_eq!(parse_nameref_subscript("map[key]"), ("map", Some("key")));
}

#[test]
fn names_parse_nameref_subscript_special_indices() {
    assert_eq!(parse_nameref_subscript("arr[@]"), ("arr", Some("@")));
    assert_eq!(parse_nameref_subscript("arr[*]"), ("arr", Some("*")));
    assert_eq!(parse_nameref_subscript("arr[-1]"), ("arr", Some("-1")));
}

#[test]
fn names_parse_nameref_subscript_empty_brackets() {
    assert_eq!(parse_nameref_subscript("arr[]"), ("arr", Some("")));
}

#[test]
fn names_parse_nameref_subscript_missing_open_bracket() {
    assert_eq!(parse_nameref_subscript("foo]"), ("foo]", None));
}

#[test]
fn names_parse_nameref_subscript_missing_close_bracket() {
    assert_eq!(parse_nameref_subscript("arr[2"), ("arr[2", None));
}

#[test]
fn names_parse_nameref_subscript_empty_name() {
    assert_eq!(parse_nameref_subscript("[idx]"), ("[idx]", None));
}

#[test]
fn names_parse_nameref_subscript_nested_brackets() {
    assert_eq!(parse_nameref_subscript("arr[a[b]]"), ("arr", Some("a[b]")));
    assert_eq!(parse_nameref_subscript("arr[[x]]"), ("arr", Some("[x]")));
}

#[test]
fn names_resolved_name_from_name_no_subscript() {
    let r = ResolvedName::plain("target");
    assert_eq!(r.name(), "target");
    assert_eq!(r.subscript(), None);
}

#[test]
fn names_resolved_name_parse_with_subscript() {
    let r = ResolvedName::parse("arr[5]".to_owned());
    assert_eq!(r.name(), "arr");
    assert_eq!(r.subscript(), Some("5"));
}

#[test]
fn names_resolved_name_parse_without_subscript() {
    let r = ResolvedName::parse("plain".to_owned());
    assert_eq!(r.name(), "plain");
    assert_eq!(r.subscript(), None);
}

#[test]
fn names_resolved_name_without_subscript_strips_index() {
    let r = ResolvedName::parse("arr[2]".to_owned());
    let stripped = r.without_subscript();
    assert_eq!(stripped.name(), "arr");
    assert_eq!(stripped.subscript(), None);
    // Original is unchanged.
    assert_eq!(r.subscript(), Some("2"));
}

#[test]
fn names_resolved_name_into_name_consumes() {
    let r = ResolvedName::parse("arr[k]".to_owned());
    assert_eq!(r.into_name(), "arr");
}

#[test]
fn names_valid_nameref_target_simple() {
    assert!(valid_nameref_target_name("foo"));
    assert!(valid_nameref_target_name("_bar"));
    assert!(valid_nameref_target_name("arr[2]"));
    assert!(valid_nameref_target_name("arr[@]"));
    assert!(valid_nameref_target_name("arr[]"));
    // Nested brackets (associative key) are allowed when balanced.
    assert!(valid_nameref_target_name("m[a[b]]"));
    assert!(valid_nameref_target_name("m[a[b]c]"));
}

#[test]
fn names_invalid_nameref_target() {
    assert!(!valid_nameref_target_name(""));
    assert!(!valid_nameref_target_name("1bad"));
    assert!(!valid_nameref_target_name("[idx]"));
    // Malformed array references: the first `[`'s matching `]` must be the
    // final character.
    assert!(!valid_nameref_target_name("m[a]b]"));
    assert!(!valid_nameref_target_name("m[x][y]"));
    assert!(!valid_nameref_target_name("a[b[c]"));
    assert!(!valid_nameref_target_name("arr[2]x"));
    assert!(!valid_nameref_target_name("arr["));
}

#[test]
fn nameref_from_str_is_resolve() {
    let nr: NameRef = "foo".into();
    assert!(matches!(nr.0, NameRefStrategy::Resolve(s) if s == "foo"));
}

#[test]
fn nameref_from_string_is_resolve() {
    let nr: NameRef = String::from("bar").into();
    assert!(matches!(nr.0, NameRefStrategy::Resolve(s) if s == "bar"));
}

#[test]
fn nameref_from_ref_string_is_resolve() {
    let s = String::from("baz");
    let nr: NameRef = (&s).into();
    assert!(matches!(nr.0, NameRefStrategy::Resolve(t) if t == "baz"));
}

#[test]
fn nameref_from_resolved_name() {
    let r = ResolvedName::parse("arr[2]".to_owned());
    let nr: NameRef = r.into();
    match nr.0 {
        NameRefStrategy::PreResolved(r) => {
            assert_eq!(r.name(), "arr");
            assert_eq!(r.subscript(), Some("2"));
        }
        other => panic!("expected PreResolved, got {other:?}"),
    }
}

#[test]
fn nameref_bypass_constructor() {
    let nr = NameRef::bypass("ref");
    assert!(matches!(nr.0, NameRefStrategy::Bypass(s) if s == "ref"));
}

#[test]
fn nameref_resolve_constructor() {
    let nr = NameRef::resolve("ref");
    assert!(matches!(nr.0, NameRefStrategy::Resolve(s) if s == "ref"));
}

#[test]
fn nameref_pre_resolved_constructor() {
    let r = ResolvedName::plain("ref");
    let nr = NameRef::pre_resolved(r);
    assert!(matches!(nr.0, NameRefStrategy::PreResolved(r) if r.name() == "ref"));
}

#[test]
fn nameref_fault_circular_message() {
    let f = NameRefFault::circular("ref");
    assert!(f.is_circular());
    assert_eq!(f.head(), "ref");
    assert_eq!(f.to_string(), "ref: circular name reference");
}

#[test]
fn nameref_fault_max_depth_message() {
    let f = NameRefFault::max_depth("c1", 8);
    assert!(!f.is_circular());
    assert_eq!(f.head(), "c1");
    assert_eq!(f.to_string(), "c1: maximum nameref depth (8) exceeded");
}
