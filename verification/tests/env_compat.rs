use brush_core::env::names::parse_nameref_subscript;
use brush_core::env::{
    valid_nameref_target_name, valid_variable_name, EnvironmentLookup, EnvironmentScope,
    ResolvedName, ShellEnvironment, MAX_NAMEREF_DEPTH,
};
use brush_core::variables::{ShellValue, ShellVariable};

fn var_str(var: &ShellVariable) -> &str {
    match var.value() {
        ShellValue::String(s) => s.as_str(),
        other => panic!("expected ShellValue::String, got {other:?}"),
    }
}

fn make_var(value: &str) -> ShellVariable {
    ShellVariable::new(ShellValue::String(value.to_owned()))
}

fn make_nameref(target: &str) -> ShellVariable {
    let mut v = ShellVariable::new(ShellValue::String(target.to_owned()));
    v.treat_as_nameref();
    v
}

#[test]
fn env_test_valid_variable_name() {
    assert!(!valid_variable_name(""));
    assert!(!valid_variable_name("1"));
    assert!(!valid_variable_name(" a"));
    assert!(!valid_variable_name(" "));

    assert!(valid_variable_name("_"));
    assert!(valid_variable_name("_a"));
    assert!(valid_variable_name("_1"));
    assert!(valid_variable_name("_a1"));
    assert!(valid_variable_name("a"));
    assert!(valid_variable_name("A"));
    assert!(valid_variable_name("a1"));
    assert!(valid_variable_name("A1"));
}

#[test]
fn env_parse_nameref_subscript_no_subscript() {
    assert_eq!(parse_nameref_subscript("foo"), ("foo", None));
    assert_eq!(parse_nameref_subscript(""), ("", None));
}

#[test]
fn env_parse_nameref_subscript_simple() {
    assert_eq!(parse_nameref_subscript("arr[2]"), ("arr", Some("2")));
    assert_eq!(parse_nameref_subscript("map[key]"), ("map", Some("key")));
}

#[test]
fn env_parse_nameref_subscript_special_indices() {
    assert_eq!(parse_nameref_subscript("arr[@]"), ("arr", Some("@")));
    assert_eq!(parse_nameref_subscript("arr[*]"), ("arr", Some("*")));
    assert_eq!(parse_nameref_subscript("arr[-1]"), ("arr", Some("-1")));
}

#[test]
fn env_parse_nameref_subscript_empty_brackets() {
    assert_eq!(parse_nameref_subscript("arr[]"), ("arr", Some("")));
}

#[test]
fn env_parse_nameref_subscript_missing_open_bracket() {
    assert_eq!(parse_nameref_subscript("foo]"), ("foo]", None));
}

#[test]
fn env_parse_nameref_subscript_missing_close_bracket() {
    assert_eq!(parse_nameref_subscript("arr[2"), ("arr[2", None));
}

#[test]
fn env_parse_nameref_subscript_empty_name() {
    assert_eq!(parse_nameref_subscript("[idx]"), ("[idx]", None));
}

#[test]
fn env_parse_nameref_subscript_nested_brackets() {
    assert_eq!(parse_nameref_subscript("arr[a[b]]"), ("arr", Some("a[b]")));
    assert_eq!(parse_nameref_subscript("arr[[x]]"), ("arr", Some("[x]")));
}

#[test]
fn env_resolved_name_from_name_no_subscript() {
    let r = ResolvedName::already_resolved("target");
    assert_eq!(r.name(), "target");
    assert_eq!(r.subscript(), None);
}

#[test]
fn env_resolved_name_parse_with_subscript() {
    let r = ResolvedName::parse("arr[5]".to_owned());
    assert_eq!(r.name(), "arr");
    assert_eq!(r.subscript(), Some("5"));
}

#[test]
fn env_resolved_name_parse_without_subscript() {
    let r = ResolvedName::parse("plain".to_owned());
    assert_eq!(r.name(), "plain");
    assert_eq!(r.subscript(), None);
}

#[test]
fn env_resolved_name_without_subscript_strips_index() {
    let r = ResolvedName::parse("arr[2]".to_owned());
    let stripped = r.without_subscript();
    assert_eq!(stripped.name(), "arr");
    assert_eq!(stripped.subscript(), None);
    assert_eq!(r.subscript(), Some("2"));
}

#[test]
fn env_resolved_name_into_name_consumes() {
    let r = ResolvedName::parse("arr[k]".to_owned());
    assert_eq!(r.into_name(), "arr");
}

#[test]
fn env_resolve_nameref_identity_on_non_nameref() {
    let mut env = ShellEnvironment::new();
    env.add("plain", make_var("hello"), EnvironmentScope::Global).unwrap();
    let r = env.resolve_nameref("plain").unwrap();
    assert_eq!(r.name(), "plain");
    assert_eq!(r.subscript(), None);
}

#[test]
fn env_resolve_nameref_identity_on_missing_var() {
    let env = ShellEnvironment::new();
    let r = env.resolve_nameref("nonexistent").unwrap();
    assert_eq!(r.name(), "nonexistent");
    assert_eq!(r.subscript(), None);
}

#[test]
fn env_resolve_nameref_single_hop() {
    let mut env = ShellEnvironment::new();
    env.add("target", make_var("hello"), EnvironmentScope::Global).unwrap();
    env.add("ref", make_nameref("target"), EnvironmentScope::Global).unwrap();
    let r = env.resolve_nameref("ref").unwrap();
    assert_eq!(r.name(), "target");
    assert_eq!(r.subscript(), None);
}

#[test]
fn env_resolve_nameref_chain_three_hops() {
    let mut env = ShellEnvironment::new();
    env.add("ultimate", make_var("v"), EnvironmentScope::Global).unwrap();
    env.add("middle", make_nameref("ultimate"), EnvironmentScope::Global).unwrap();
    env.add("top", make_nameref("middle"), EnvironmentScope::Global).unwrap();
    let r = env.resolve_nameref("top").unwrap();
    assert_eq!(r.name(), "ultimate");
}

#[test]
fn env_resolve_nameref_chain_to_subscripted_target() {
    let mut env = ShellEnvironment::new();
    env.add("ref", make_nameref("arr[2]"), EnvironmentScope::Global).unwrap();
    let r = env.resolve_nameref("ref").unwrap();
    assert_eq!(r.name(), "arr");
    assert_eq!(r.subscript(), Some("2"));
}

#[test]
fn env_resolve_nameref_at_max_depth_succeeds() {
    let mut env = ShellEnvironment::new();
    env.add("target", make_var("v"), EnvironmentScope::Global).unwrap();
    let mut prev = "target".to_owned();
    for i in 0..MAX_NAMEREF_DEPTH - 1 {
        let name = format!("link{i}");
        env.add(&name, make_nameref(&prev), EnvironmentScope::Global).unwrap();
        prev = name;
    }
    let r = env.resolve_nameref(&prev).unwrap();
    assert_eq!(r.name(), "target");
}

#[test]
fn resolve_nameref_to_name_strips_no_subscript() {
    let mut env = ShellEnvironment::new();
    env.add("target", make_var("v"), EnvironmentScope::Global).unwrap();
    env.add("ref", make_nameref("target"), EnvironmentScope::Global).unwrap();
    assert_eq!(env.resolve_nameref_to_name("ref").unwrap(), "target");
}

#[test]
fn resolve_nameref_to_name_preserves_subscript() {
    let mut env = ShellEnvironment::new();
    env.add("ref", make_nameref("arr[2]"), EnvironmentScope::Global).unwrap();
    assert_eq!(env.resolve_nameref_to_name("ref").unwrap(), "arr[2]");
}

#[test]
fn env_resolve_nameref_with_empty_target_terminates() {
    let mut env = ShellEnvironment::new();
    env.add("ref", make_nameref(""), EnvironmentScope::Global).unwrap();
    let r = env.resolve_nameref("ref").unwrap();
    assert_eq!(r.name(), "ref");
    assert_eq!(r.subscript(), None);
}

#[test]
fn resolve_nameref_or_default_returns_resolved_on_success() {
    let mut env = ShellEnvironment::new();
    env.add("target", make_var("v"), EnvironmentScope::Global).unwrap();
    env.add("ref", make_nameref("target"), EnvironmentScope::Global).unwrap();
    let r = env.resolve_nameref_or_default("ref");
    assert_eq!(r.name(), "target");
}

#[test]
fn resolve_nameref_or_default_returns_identity_on_circular() {
    let mut env = ShellEnvironment::new();
    env.add("a", make_nameref("b"), EnvironmentScope::Global).unwrap();
    env.add("b", make_nameref("a"), EnvironmentScope::Global).unwrap();
    let r = env.resolve_nameref_or_default("a");
    assert_eq!(r.name(), "a");
    assert_eq!(r.subscript(), None);
}

#[test]
fn env_valid_nameref_target_simple() {
    assert!(valid_nameref_target_name("foo"));
    assert!(valid_nameref_target_name("_bar"));
    assert!(valid_nameref_target_name("arr[2]"));
    assert!(valid_nameref_target_name("arr[@]"));
}

#[test]
fn env_invalid_nameref_target() {
    assert!(!valid_nameref_target_name(""));
    assert!(!valid_nameref_target_name("1bad"));
    assert!(!valid_nameref_target_name("[idx]"));
}

#[test]
fn env_lookup_str_auto_resolves_nameref() {
    let mut env = ShellEnvironment::new();
    env.add("target", make_var("hello"), EnvironmentScope::Global).unwrap();
    env.add("ref", make_nameref("target"), EnvironmentScope::Global).unwrap();

    let resolved = env.lookup("ref").get().expect("should find target");
    assert_eq!(resolved.scope(), EnvironmentScope::Global);
    assert_eq!(var_str(resolved.base_var()), "hello");
    assert!(!resolved.has_subscript());
}

#[test]
fn env_lookup_str_bypassing_nameref_returns_nameref_itself() {
    let mut env = ShellEnvironment::new();
    env.add("target", make_var("hello"), EnvironmentScope::Global).unwrap();
    env.add("ref", make_nameref("target"), EnvironmentScope::Global).unwrap();

    let found = env.lookup("ref").bypassing_nameref().get().expect("should find ref");
    let (scope, var) = (found.scope(), found.base_var());
    assert_eq!(scope, EnvironmentScope::Global);
    assert!(var.is_treated_as_nameref());
    assert_eq!(var_str(var), "target");
}

#[test]
fn env_lookup_resolved_name_skips_resolution() {
    let mut env = ShellEnvironment::new();
    env.add("target", make_var("hello"), EnvironmentScope::Global).unwrap();

    let resolved = ResolvedName::already_resolved("target");
    let found = env.lookup_resolved(resolved.base()).get().expect("should find target");
    let (scope, var) = (found.scope(), found.base_var());
    assert_eq!(scope, EnvironmentScope::Global);
    assert_eq!(var_str(var), "hello");
}

#[test]
fn env_lookup_in_scope_restricts_to_local() {
    let mut env = ShellEnvironment::new();
    env.add("x", make_var("global"), EnvironmentScope::Global).unwrap();
    env.push_scope(EnvironmentScope::Local);
    assert!(env
        .lookup("x")
        .bypassing_nameref()
        .in_scope(EnvironmentLookup::OnlyInCurrentLocal)
        .get()
        .is_none());
    assert!(env
        .lookup("x")
        .bypassing_nameref()
        .in_scope(EnvironmentLookup::Anywhere)
        .get()
        .is_some());
    env.pop_scope(EnvironmentScope::Local).unwrap();
}

#[test]
fn env_lookup_in_scope_finds_local() {
    let mut env = ShellEnvironment::new();
    env.add("x", make_var("global"), EnvironmentScope::Global).unwrap();
    env.push_scope(EnvironmentScope::Local);
    env.add("x", make_var("local"), EnvironmentScope::Local).unwrap();

    let found = env
        .lookup("x")
        .bypassing_nameref()
        .in_scope(EnvironmentLookup::OnlyInCurrentLocal)
        .get()
        .expect("should find local x");
    let (scope, var) = (found.scope(), found.base_var());
    assert_eq!(scope, EnvironmentScope::Local);
    assert_eq!(var_str(var), "local");
    env.pop_scope(EnvironmentScope::Local).unwrap();
}

#[test]
fn lookup_mut_auto_resolves_nameref() {
    let mut env = ShellEnvironment::new();
    env.add("target", make_var("original"), EnvironmentScope::Global).unwrap();
    env.add("ref", make_nameref("target"), EnvironmentScope::Global).unwrap();

    let resolved = env.lookup_mut("ref").get().expect("should find target");
    assert_eq!(resolved.scope(), EnvironmentScope::Global);
    assert!(!resolved.has_subscript());
}

#[test]
fn lookup_mut_bypassing_nameref_returns_nameref_itself() {
    let mut env = ShellEnvironment::new();
    env.add("target", make_var("hello"), EnvironmentScope::Global).unwrap();
    env.add("ref", make_nameref("target"), EnvironmentScope::Global).unwrap();

    let (scope, var) = env
        .lookup_mut("ref")
        .bypassing_nameref()
        .get()
        .expect("should find ref");
    assert_eq!(scope, EnvironmentScope::Global);
    assert!(var.is_treated_as_nameref());
}

#[test]
fn env_lookup_nonexistent_returns_none() {
    let env = ShellEnvironment::new();
    assert!(env.lookup("nonexistent").get().is_none());
    assert!(env.lookup("nonexistent").bypassing_nameref().get().is_none());
    let resolved = ResolvedName::already_resolved("nonexistent");
    assert!(env.lookup_resolved(resolved.base()).get().is_none());
}

#[test]
fn env_lookup_str_auto_resolve_with_subscripted_nameref() {
    let mut env = ShellEnvironment::new();
    let arr = ShellVariable::new(ShellValue::indexed_array_from_strs(&["zero", "one", "two"]));
    env.add("arr", arr, EnvironmentScope::Global).unwrap();
    env.add("ref", make_nameref("arr[1]"), EnvironmentScope::Global).unwrap();

    let resolved = env.lookup("ref").get().expect("should find arr");
    assert!(resolved.has_subscript());
    assert!(matches!(resolved.base_var().value(), ShellValue::IndexedArray(_)));
}

#[test]
fn env_lookup_circular_nameref_returns_none() {
    let mut env = ShellEnvironment::new();
    env.add("a", make_nameref("b"), EnvironmentScope::Global).unwrap();
    env.add("b", make_nameref("a"), EnvironmentScope::Global).unwrap();
    assert!(env.lookup("a").get().is_none());
}

#[test]
fn env_lookup_resolved_name_with_in_scope() {
    let mut env = ShellEnvironment::new();
    env.add("x", make_var("global"), EnvironmentScope::Global).unwrap();
    env.push_scope(EnvironmentScope::Local);
    env.add("x", make_var("local"), EnvironmentScope::Local).unwrap();

    let resolved = ResolvedName::already_resolved("x");

    let found = env
        .lookup_resolved(resolved.base())
        .in_scope(EnvironmentLookup::OnlyInGlobal)
        .get()
        .expect("should find global x");
    assert_eq!(found.scope(), EnvironmentScope::Global);
    assert_eq!(var_str(found.base_var()), "global");

    let found = env
        .lookup_resolved(resolved.base())
        .in_scope(EnvironmentLookup::OnlyInCurrentLocal)
        .get()
        .expect("should find local x");
    assert_eq!(found.scope(), EnvironmentScope::Local);
    assert_eq!(var_str(found.base_var()), "local");

    env.pop_scope(EnvironmentScope::Local).unwrap();
}

#[test]
fn env_resolve_nameref_self_reference_is_circular() {
    let mut env = ShellEnvironment::new();
    env.add("self", make_nameref("self"), EnvironmentScope::Global).unwrap();
    let err = env.resolve_nameref("self").unwrap_err();
    assert!(err.is_circular());
}

#[test]
fn env_resolve_nameref_two_node_cycle_is_circular() {
    let mut env = ShellEnvironment::new();
    env.add("a", make_nameref("b"), EnvironmentScope::Global).unwrap();
    env.add("b", make_nameref("a"), EnvironmentScope::Global).unwrap();
    let err = env.resolve_nameref("a").unwrap_err();
    assert!(err.is_circular());
}

#[test]
fn env_resolve_nameref_three_node_cycle_is_circular() {
    let mut env = ShellEnvironment::new();
    env.add("c1", make_nameref("c2"), EnvironmentScope::Global).unwrap();
    env.add("c2", make_nameref("c3"), EnvironmentScope::Global).unwrap();
    env.add("c3", make_nameref("c1"), EnvironmentScope::Global).unwrap();
    let err = env.resolve_nameref("c1").unwrap_err();
    assert!(err.is_circular());
}
