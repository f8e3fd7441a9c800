use brush_core::env::{
    EnvironmentLookup, EnvironmentScope, ResolvedName, ResolvedScope, ShellEnvironment,
    MAX_NAMEREF_DEPTH,
};
use brush_core::error::ErrorKind;
use brush_core::variables::{ArrayLiteral, ShellValue, ShellValueLiteral, ShellVariable};

/// Extract the string value of a variable for test assertions.
fn var_str(var: &ShellVariable) -> &str {
    match var.value() {
        ShellValue::String(s) => s.as_str(),
        other => panic!("expected ShellValue::String, got {other:?}"),
    }
}

/// Create a non-nameref string variable.
fn make_var(value: &str) -> ShellVariable {
    ShellVariable::new(ShellValue::String(value.to_owned()))
}

/// Create a nameref variable pointing to `target`.
fn make_nameref(target: &str) -> ShellVariable {
    let mut v = ShellVariable::new(ShellValue::String(target.to_owned()));
    v.treat_as_nameref();
    v
}

#[test]
fn mod_resolve_nameref_identity_on_non_nameref() {
    let mut env = ShellEnvironment::new();
    env.add("plain", make_var("hello"), EnvironmentScope::Global).unwrap();
    let r = env.resolve_nameref("plain").unwrap();
    assert_eq!(r.name(), "plain");
    assert_eq!(r.subscript(), None);
}

#[test]
fn mod_resolve_nameref_identity_on_missing_var() {
    let env = ShellEnvironment::new();
    let r = env.resolve_nameref("nonexistent").unwrap();
    assert_eq!(r.name(), "nonexistent");
    assert_eq!(r.subscript(), None);
}

#[test]
fn mod_resolve_nameref_single_hop() {
    let mut env = ShellEnvironment::new();
    env.add("target", make_var("hello"), EnvironmentScope::Global).unwrap();
    env.add("ref", make_nameref("target"), EnvironmentScope::Global).unwrap();
    let r = env.resolve_nameref("ref").unwrap();
    assert_eq!(r.name(), "target");
    assert_eq!(r.subscript(), None);
}

#[test]
fn mod_resolve_nameref_chain_three_hops() {
    let mut env = ShellEnvironment::new();
    env.add("ultimate", make_var("v"), EnvironmentScope::Global).unwrap();
    env.add("middle", make_nameref("ultimate"), EnvironmentScope::Global).unwrap();
    env.add("top", make_nameref("middle"), EnvironmentScope::Global).unwrap();
    let r = env.resolve_nameref("top").unwrap();
    assert_eq!(r.name(), "ultimate");
}

#[test]
fn mod_resolve_nameref_chain_to_subscripted_target() {
    let mut env = ShellEnvironment::new();
    env.add("ref", make_nameref("arr[2]"), EnvironmentScope::Global).unwrap();
    let r = env.resolve_nameref("ref").unwrap();
    assert_eq!(r.name(), "arr");
    assert_eq!(r.subscript(), Some("2"));
}

#[test]
fn mod_resolve_nameref_self_reference_is_circular() {
    let mut env = ShellEnvironment::new();
    env.add("self", make_nameref("self"), EnvironmentScope::Global).unwrap();
    let err = env.resolve_nameref("self").unwrap_err();
    assert!(err.is_circular());
    assert_eq!(err.head(), "self");
}

#[test]
fn mod_resolve_nameref_two_node_cycle_is_circular() {
    let mut env = ShellEnvironment::new();
    env.add("a", make_nameref("b"), EnvironmentScope::Global).unwrap();
    env.add("b", make_nameref("a"), EnvironmentScope::Global).unwrap();
    let err = env.resolve_nameref("a").unwrap_err();
    assert!(err.is_circular());
    assert_eq!(err.head(), "a");
}

#[test]
fn mod_resolve_nameref_three_node_cycle_is_circular() {
    let mut env = ShellEnvironment::new();
    env.add("c1", make_nameref("c2"), EnvironmentScope::Global).unwrap();
    env.add("c2", make_nameref("c3"), EnvironmentScope::Global).unwrap();
    env.add("c3", make_nameref("c1"), EnvironmentScope::Global).unwrap();
    let err = env.resolve_nameref("c1").unwrap_err();
    assert!(err.is_circular());
    assert_eq!(err.head(), "c1");
}

#[test]
fn mod_resolve_nameref_at_max_depth_succeeds() {
    let mut env = ShellEnvironment::new();
    env.add("target", make_var("v"), EnvironmentScope::Global).unwrap();
    let mut prev = "target".to_owned();
    for i in 0..MAX_NAMEREF_DEPTH - 1 {
        let name = format!("link{i}");
        env.add(&name, make_nameref(&prev), EnvironmentScope::Global).unwrap();
        prev = name;
    }
    let r = env.resolve_nameref(&prev).unwrap();
    assert_eq!(r.name(), "target");
}

#[test]
fn mod_resolve_nameref_beyond_max_depth_errors() {
    let mut env = ShellEnvironment::new();
    env.add("target", make_var("v"), EnvironmentScope::Global).unwrap();
    let mut prev = "target".to_owned();
    for i in 0..MAX_NAMEREF_DEPTH + 2 {
        let name = format!("link{i}");
        env.add(&name, make_nameref(&prev), EnvironmentScope::Global).unwrap();
        prev = name;
    }
    let err = env.resolve_nameref(&prev).unwrap_err();
    // A too-deep but acyclic chain reports a max-depth fault, NOT a cycle.
    assert!(!err.is_circular());
    assert_eq!(err.head(), prev);
}

#[test]
fn resolve_nameref_self_name_local_resolves_to_global() {
    let mut env = ShellEnvironment::new();
    env.add("x", make_var("global"), EnvironmentScope::Global).unwrap();
    env.push_scope(EnvironmentScope::Local);
    env.add("x", make_nameref("x"), EnvironmentScope::Local).unwrap();

    let r = env.resolve_nameref("x").unwrap();
    assert_eq!(r.name(), "x");
    assert!(r.is_global_scope());
    let resolved = env.lookup("x").get().expect("should find global x");
    assert_eq!(resolved.scope(), EnvironmentScope::Global);
    assert_eq!(var_str(resolved.base_var()), "global");

    env.pop_scope(EnvironmentScope::Local).unwrap();
}

#[test]
fn resolve_nameref_self_name_global_is_circular() {
    let mut env = ShellEnvironment::new();
    env.add("x", make_nameref("x"), EnvironmentScope::Global).unwrap();
    let err = env.resolve_nameref("x").unwrap_err();
    assert!(err.is_circular());
}

#[test]
fn resolve_nameref_unparsed_strips_no_subscript() {
    let mut env = ShellEnvironment::new();
    env.add("target", make_var("v"), EnvironmentScope::Global).unwrap();
    env.add("ref", make_nameref("target"), EnvironmentScope::Global).unwrap();
    let r = env.resolve_nameref_unparsed("ref").unwrap();
    assert_eq!(r.name(), "target");
    assert_eq!(r.resolved_scope(), ResolvedScope::Default);
}

#[test]
fn resolve_nameref_unparsed_preserves_subscript() {
    let mut env = ShellEnvironment::new();
    env.add("ref", make_nameref("arr[2]"), EnvironmentScope::Global).unwrap();
    let r = env.resolve_nameref_unparsed("ref").unwrap();
    assert_eq!(r.name(), "arr[2]");
    assert_eq!(r.resolved_scope(), ResolvedScope::Default);
}

#[test]
fn mod_resolve_nameref_with_empty_target_terminates() {
    let mut env = ShellEnvironment::new();
    env.add("ref", make_nameref(""), EnvironmentScope::Global).unwrap();
    let r = env.resolve_nameref("ref").unwrap();
    assert_eq!(r.name(), "ref");
    assert_eq!(r.subscript(), None);
}

#[test]
fn resolve_nameref_or_self_returns_resolved_on_success() {
    let mut env = ShellEnvironment::new();
    env.add("target", make_var("v"), EnvironmentScope::Global).unwrap();
    env.add("ref", make_nameref("target"), EnvironmentScope::Global).unwrap();
    let r = env.resolve_nameref_or_self("ref");
    assert_eq!(r.name(), "target");
}

#[test]
fn resolve_nameref_or_self_returns_identity_on_circular() {
    let mut env = ShellEnvironment::new();
    env.add("a", make_nameref("b"), EnvironmentScope::Global).unwrap();
    env.add("b", make_nameref("a"), EnvironmentScope::Global).unwrap();
    let r = env.resolve_nameref_or_self("a");
    assert_eq!(r.name(), "a");
    assert_eq!(r.subscript(), None);
}

#[test]
fn mod_lookup_str_auto_resolves_nameref() {
    let mut env = ShellEnvironment::new();
    env.add("target", make_var("hello"), EnvironmentScope::Global).unwrap();
    env.add("ref", make_nameref("target"), EnvironmentScope::Global).unwrap();

    let resolved = env.lookup("ref").get().expect("should find target");
    assert_eq!(resolved.scope(), EnvironmentScope::Global);
    assert_eq!(var_str(resolved.base_var()), "hello");
    assert!(resolved.subscript().is_none());
}

#[test]
fn mod_lookup_str_bypassing_nameref_returns_nameref_itself() {
    let mut env = ShellEnvironment::new();
    env.add("target", make_var("hello"), EnvironmentScope::Global).unwrap();
    env.add("ref", make_nameref("target"), EnvironmentScope::Global).unwrap();

    let r = env.lookup("ref").bypassing_nameref().get().expect("should find ref");
    assert_eq!(r.scope(), EnvironmentScope::Global);
    assert!(r.base_var().is_treated_as_nameref());
    assert_eq!(var_str(r.base_var()), "target");
}

#[test]
fn mod_lookup_resolved_name_skips_resolution() {
    let mut env = ShellEnvironment::new();
    env.add("target", make_var("hello"), EnvironmentScope::Global).unwrap();

    let resolved = ResolvedName::plain("target");
    let r = env.lookup_resolved(resolved.base()).get().expect("should find target");
    assert_eq!(r.scope(), EnvironmentScope::Global);
    assert_eq!(var_str(r.base_var()), "hello");
}

#[test]
fn mod_lookup_in_scope_restricts_to_local() {
    let mut env = ShellEnvironment::new();
    env.add("x", make_var("global"), EnvironmentScope::Global).unwrap();
    env.push_scope(EnvironmentScope::Local);
    assert!(env
        .lookup("x")
        .bypassing_nameref()
        .in_scope(EnvironmentLookup::OnlyInCurrentLocal)
        .get()
        .is_none());
    assert!(env
        .lookup("x")
        .bypassing_nameref()
        .in_scope(EnvironmentLookup::Anywhere)
        .get()
        .is_some());
    env.pop_scope(EnvironmentScope::Local).unwrap();
}

#[test]
fn mod_lookup_in_scope_finds_local() {
    let mut env = ShellEnvironment::new();
    env.add("x", make_var("global"), EnvironmentScope::Global).unwrap();
    env.push_scope(EnvironmentScope::Local);
    env.add("x", make_var("local"), EnvironmentScope::Local).unwrap();

    let r = env
        .lookup("x")
        .bypassing_nameref()
        .in_scope(EnvironmentLookup::OnlyInCurrentLocal)
        .get()
        .expect("should find local x");
    assert_eq!(r.scope(), EnvironmentScope::Local);
    assert_eq!(var_str(r.base_var()), "local");
    env.pop_scope(EnvironmentScope::Local).unwrap();
}

#[test]
fn entry_count_returns_to_baseline_after_scope_pop() {
    let mut env = ShellEnvironment::new();
    let baseline = env.entry_count();
    for _ in 0..5 {
        env.push_scope(EnvironmentScope::Local);
        env.add("a", make_var("1"), EnvironmentScope::Local).unwrap();
        env.add("b", make_var("2"), EnvironmentScope::Local).unwrap();
        env.pop_scope(EnvironmentScope::Local).unwrap();
    }
    assert_eq!(env.entry_count(), baseline);
}

#[test]
fn add_rejects_invalid_variable_names() {
    let mut env = ShellEnvironment::new();
    assert!(env.add("arr[0]", make_var("value"), EnvironmentScope::Global).is_err());
    assert!(env.add("1bad", make_var("value"), EnvironmentScope::Global).is_err());
}

#[test]
fn lookup_mut_resolved_finds_and_allows_mutation() {
    let mut env = ShellEnvironment::new();
    env.add("target", make_var("original"), EnvironmentScope::Global).unwrap();

    let resolved = ResolvedName::plain("target");
    let (scope, var) = env
        .lookup_mut_resolved(resolved.base())
        .get()
        .expect("should find target");
    assert_eq!(scope, EnvironmentScope::Global);
    assert!(!var.is_treated_as_nameref());
}

#[test]
fn mod_lookup_nonexistent_returns_none() {
    let env = ShellEnvironment::new();
    assert!(env.lookup("nonexistent").get().is_none());
    assert!(env.lookup("nonexistent").bypassing_nameref().get().is_none());
    let resolved = ResolvedName::plain("nonexistent");
    assert!(env.lookup_resolved(resolved.base()).get().is_none());
}

#[test]
fn mod_lookup_str_auto_resolve_with_subscripted_nameref() {
    let mut env = ShellEnvironment::new();
    let arr = ShellVariable::new(ShellValue::indexed_array(["zero", "one", "two"]));
    env.add("arr", arr, EnvironmentScope::Global).unwrap();
    env.add("ref", make_nameref("arr[1]"), EnvironmentScope::Global).unwrap();

    let resolved = env.lookup("ref").get().expect("should find arr");
    assert!(resolved.subscript().is_some());
    assert!(matches!(resolved.base_var().value(), ShellValue::IndexedArray(_)));
}

#[test]
fn mod_lookup_circular_nameref_returns_none() {
    let mut env = ShellEnvironment::new();
    env.add("a", make_nameref("b"), EnvironmentScope::Global).unwrap();
    env.add("b", make_nameref("a"), EnvironmentScope::Global).unwrap();
    assert!(env.lookup("a").get().is_none());
}

#[test]
fn mod_lookup_resolved_name_with_in_scope() {
    let mut env = ShellEnvironment::new();
    env.add("x", make_var("global"), EnvironmentScope::Global).unwrap();
    env.push_scope(EnvironmentScope::Local);
    env.add("x", make_var("local"), EnvironmentScope::Local).unwrap();

    let resolved = ResolvedName::plain("x");

    let r = env
        .lookup_resolved(resolved.base())
        .in_scope(EnvironmentLookup::OnlyInGlobal)
        .get()
        .expect("should find global x");
    assert_eq!(r.scope(), EnvironmentScope::Global);
    assert_eq!(var_str(r.base_var()), "global");

    let r = env
        .lookup_resolved(resolved.base())
        .in_scope(EnvironmentLookup::OnlyInCurrentLocal)
        .get()
        .expect("should find local x");
    assert_eq!(r.scope(), EnvironmentScope::Local);
    assert_eq!(var_str(r.base_var()), "local");

    env.pop_scope(EnvironmentScope::Local).unwrap();
}

#[test]
fn write_of_list_to_element_is_refused_and_changes_nothing() {
    let mut env = ShellEnvironment::new();
    env.add("keep", make_var("x"), EnvironmentScope::Global).unwrap();
    let before = env.entry_count();
    let list = ShellValueLiteral::Array(ArrayLiteral(vec![(None, "a".to_owned())]));
    let r = env.write("arr".into()).at_index("0".to_owned()).set(list);
    assert!(matches!(r.unwrap_err().kind(), ErrorKind::AssigningListToArrayMember));
    assert!(env.get("arr").is_none());
    assert_eq!(env.entry_count(), before);
    assert_eq!(var_str(env.get("keep").unwrap().1), "x");
}

#[test]
fn write_of_scalar_to_element_creates_global_array() {
    let mut env = ShellEnvironment::new();
    env.push_scope(EnvironmentScope::Local);
    env.write("arr".into())
        .at_index("0".to_owned())
        .set(ShellValueLiteral::Scalar("v".to_owned()))
        .unwrap();
    let (scope, var) = env.get("arr").unwrap();
    assert!(matches!(scope, EnvironmentScope::Global));
    match var.value() {
        ShellValue::IndexedArray(items) => assert_eq!(items, &vec![(0u64, "v".to_owned())]),
        other => panic!("expected an indexed array, got {other:?}"),
    }
}

#[test]
fn plain_write_matches_set_var() {
    let mut a = ShellEnvironment::new();
    let mut b = ShellEnvironment::new();
    a.write("x".into()).set(ShellValueLiteral::Scalar("1".to_owned())).unwrap();
    b.set_var("x".into(), ShellValueLiteral::Scalar("1".to_owned())).unwrap();
    assert_eq!(var_str(a.get("x").unwrap().1), var_str(b.get("x").unwrap().1));
    assert_eq!(a.entry_count(), b.entry_count());
}

#[test]
fn set_var_through_nameref_writes_the_target() {
    let mut env = ShellEnvironment::new();
    env.add("target", make_var("old"), EnvironmentScope::Global).unwrap();
    env.add("ref", make_nameref("target"), EnvironmentScope::Global).unwrap();
    env.set_var("ref".into(), ShellValueLiteral::Scalar("new".to_owned())).unwrap();
    assert_eq!(var_str(env.get("target").unwrap().1), "new");
    assert_eq!(var_str(env.get("ref").unwrap().1), "target");
}

#[test]
fn unset_through_nameref_unsets_the_target() {
    let mut env = ShellEnvironment::new();
    env.add("target", make_var("v"), EnvironmentScope::Global).unwrap();
    env.add("ref", make_nameref("target"), EnvironmentScope::Global).unwrap();
    env.unset("ref".into()).unwrap();
    assert!(env.get("target").is_none());
    assert!(env.get("ref").is_some());
}
