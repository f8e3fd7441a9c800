use brush_core::env::{EnvironmentLookup, EnvironmentScope, ShellEnvironment};
use brush_core::variables::{ShellValue, ShellVariable};

fn make_var(value: &str) -> ShellVariable {
    ShellVariable::new(ShellValue::String(value.to_owned()))
}

fn exported(value: &str) -> ShellVariable {
    let mut v = make_var(value);
    v.export();
    v
}

fn value_of(var: &ShellVariable) -> String {
    match var.value() {
        ShellValue::String(s) => s.clone(),
        other => panic!("expected a string, got {other:?}"),
    }
}

fn listing(vars: Vec<(&String, &ShellVariable)>) -> Vec<(String, String)> {
    let mut v: Vec<(String, String)> = vars.into_iter().map(|(n, var)| (n.clone(), value_of(var))).collect();
    v.sort();
    v
}

#[test]
fn iter_shows_innermost_variable_of_each_name() {
    let mut env = ShellEnvironment::new();
    env.add("a", make_var("global-a"), EnvironmentScope::Global).unwrap();
    env.add("b", make_var("global-b"), EnvironmentScope::Global).unwrap();
    env.push_scope(EnvironmentScope::Local);
    env.add("a", make_var("local-a"), EnvironmentScope::Local).unwrap();
    assert_eq!(
        listing(env.iter()),
        vec![("a".into(), "local-a".into()), ("b".into(), "global-b".into())]
    );
    assert_eq!(
        listing(env.iter_using_policy(EnvironmentLookup::OnlyInGlobal)),
        vec![("a".into(), "global-a".into()), ("b".into(), "global-b".into())]
    );
    assert_eq!(listing(env.iter_using_policy(EnvironmentLookup::OnlyInLocal)), vec![("a".into(), "local-a".into())]);
}

#[test]
fn iter_in_current_local_stops_at_the_first_local_scope() {
    let mut env = ShellEnvironment::new();
    env.push_scope(EnvironmentScope::Local);
    env.add("outer", make_var("1"), EnvironmentScope::Local).unwrap();
    env.push_scope(EnvironmentScope::Local);
    env.add("inner", make_var("2"), EnvironmentScope::Local).unwrap();
    assert_eq!(
        listing(env.iter_using_policy(EnvironmentLookup::OnlyInCurrentLocal)),
        vec![("inner".into(), "2".into())]
    );
    assert_eq!(listing(env.iter()).len(), 2);
}

#[test]
fn iter_exported_skips_unexported_shadows() {
    let mut env = ShellEnvironment::new();
    env.add("PATHISH", exported("/bin"), EnvironmentScope::Global).unwrap();
    env.add("quiet", make_var("x"), EnvironmentScope::Global).unwrap();
    env.push_scope(EnvironmentScope::Local);
    env.add("PATHISH", make_var("local"), EnvironmentScope::Local).unwrap();
    assert_eq!(listing(env.iter_exported()), vec![("PATHISH".into(), "/bin".into())]);
}

#[test]
fn pop_scope_of_wrong_type_still_pops_and_reports() {
    let mut env = ShellEnvironment::new();
    env.push_scope(EnvironmentScope::Local);
    env.add("x", make_var("1"), EnvironmentScope::Local).unwrap();
    let before = env.entry_count();
    assert!(env.pop_scope(EnvironmentScope::Command).is_err());
    assert_eq!(env.entry_count(), before);
    assert!(env.get("x").is_none());
}
