use brush_core::env::{EnvironmentScope, ShellEnvironment};
use brush_core::error::ErrorKind;
use brush_core::expansion::parameter::{
    change_all_chars, change_first_char, check_parameter_set, insert_shell_name, CaseChange,
    expand_indexed_parameter, expand_named_parameter, expand_variable_names, expand_positional_parameter, is_set_assoc_array,
    parameter_value_used, substring_bounds, to_assignment_logic, ParameterTestType,
};
use brush_core::expansion::shape::ParameterState;
use brush_core::expansion::{Expansion, ExpansionPiece};
use brush_core::int_utils::parse;
use brush_core::variables::{ShellValue, ShellValueUnsetType, ShellVariable};

fn text_of(e: &Expansion) -> Vec<Vec<ExpansionPiece>> {
    e.fields.iter().map(|f| f.0.clone()).collect()
}

#[test]
fn default_value_tests() {
    assert!(parameter_value_used(ParameterTestType::UnsetOrNull, ParameterState::NonZeroLength));
    assert!(!parameter_value_used(ParameterTestType::UnsetOrNull, ParameterState::DefinedEmptyString));
    assert!(parameter_value_used(ParameterTestType::Unset, ParameterState::DefinedEmptyString));
    assert!(!parameter_value_used(ParameterTestType::Unset, ParameterState::Undefined));
}

#[test]
fn substring_bounds_clamp_like_bash() {
    assert_eq!(substring_bounds(5, false, 1, Some(2)), (1, 3));
    assert_eq!(substring_bounds(5, false, -2, None), (0, 5));
    assert_eq!(substring_bounds(5, true, -2, None), (3, 5));
    assert_eq!(substring_bounds(5, true, -9, None), (5, 5));
    assert_eq!(substring_bounds(5, false, 9, Some(1)), (5, 5));
    assert_eq!(substring_bounds(5, false, 1, Some(-1)), (1, 5));
    assert_eq!(substring_bounds(5, false, 2, Some(-4)), (2, 3));
    assert_eq!(substring_bounds(5, false, 1, Some(10)), (1, 5));
}

#[test]
fn assignment_text_of_variables() {
    let s = ShellVariable::new(ShellValue::String("v".into()));
    assert_eq!(to_assignment_logic("x", &s, "v", ""), "x=v");
    let a = ShellVariable::new(ShellValue::IndexedArray(vec![(0, "a".into())]));
    assert_eq!(to_assignment_logic("arr", &a, "([0]=\"a\")", "a"), "declare -a arr=([0]=\"a\")");
    assert_eq!(to_assignment_logic("arr", &a, "", "a"), "declare -a arr");
    let u = ShellVariable::new_unset();
    assert_eq!(to_assignment_logic("u", &u, "", ""), "declare -- u");
}

#[test]
fn named_parameters_expand_to_their_text() {
    let mut env = ShellEnvironment::new();
    env.add("x", ShellVariable::new(ShellValue::String("hi".into())), EnvironmentScope::Global).unwrap();
    env.add("arr", ShellVariable::new(ShellValue::IndexedArray(vec![(0, "zero".into()), (1, "one".into())])), EnvironmentScope::Global).unwrap();
    let e = expand_named_parameter(&env, "x").unwrap();
    assert!(!e.undefined);
    assert_eq!(text_of(&e), vec![vec![ExpansionPiece::Splittable("hi".into())]]);
    let e = expand_named_parameter(&env, "arr").unwrap();
    assert_eq!(text_of(&e), vec![vec![ExpansionPiece::Splittable("zero".into())]]);
    assert!(expand_named_parameter(&env, "missing").unwrap().undefined);
    let err = expand_named_parameter(&env, "1bad").unwrap_err();
    assert!(matches!(err.kind(), ErrorKind::BadSubstitution(n) if n == "1bad"));
}

#[test]
fn positional_parameters_expand_to_arguments() {
    let args = vec!["a".to_owned(), "b".to_owned()];
    assert_eq!(text_of(&expand_positional_parameter("sh", &args, 0)), vec![vec![ExpansionPiece::Splittable("sh".into())]]);
    assert_eq!(text_of(&expand_positional_parameter("sh", &args, 2)), vec![vec![ExpansionPiece::Splittable("b".into())]]);
    assert!(expand_positional_parameter("sh", &args, 3).undefined);
}

#[test]
fn parse_reports_the_integer_type() {
    assert_eq!(parse::<u32>("42", 10).unwrap(), 42);
    assert_eq!(parse::<u8>("FF", 16).unwrap(), 255);
    let err = parse::<u8>("256", 10).unwrap_err();
    assert!(matches!(err.kind(), ErrorKind::IntParseError { s, int_type_name: "u8", radix: 10 } if s == "256"));
}

#[test]
fn indexed_parameter_reads_the_named_element() {
    let mut env = ShellEnvironment::new();
    let arr = ShellValue::IndexedArray(vec![(0, "a".to_owned()), (3, "d".to_owned())]);
    env.add("arr", ShellVariable::new(arr), EnvironmentScope::Global).unwrap();
    let assoc = ShellValue::AssociativeArray(vec![("k".to_owned(), "v".to_owned())]);
    env.add("map", ShellVariable::new(assoc), EnvironmentScope::Global).unwrap();
    env.add("s", ShellVariable::new(ShellValue::String("str".to_owned())), EnvironmentScope::Global).unwrap();

    let e = expand_indexed_parameter(&env, "arr", "3");
    assert!(!e.undefined);
    assert_eq!(text_of(&e), vec![vec![ExpansionPiece::Splittable("d".to_owned())]]);
    assert!(expand_indexed_parameter(&env, "arr", "1").undefined);
    assert_eq!(text_of(&expand_indexed_parameter(&env, "map", "k")), vec![vec![ExpansionPiece::Splittable("v".to_owned())]]);
    assert_eq!(text_of(&expand_indexed_parameter(&env, "s", "0")), vec![vec![ExpansionPiece::Splittable("str".to_owned())]]);
    assert!(expand_indexed_parameter(&env, "s", "1").undefined);
    assert!(expand_indexed_parameter(&env, "missing", "0").undefined);
}

#[test]
fn assoc_arrays_take_keys_as_subscripts() {
    let mut env = ShellEnvironment::new();
    let assoc = ShellValue::AssociativeArray(vec![("k".to_owned(), "v".to_owned())]);
    env.add("map", ShellVariable::new(assoc), EnvironmentScope::Global).unwrap();
    let declared = ShellValue::Unset(ShellValueUnsetType::AssociativeArray);
    env.add("decl", ShellVariable::new(declared), EnvironmentScope::Global).unwrap();
    env.add("arr", ShellVariable::new(ShellValue::IndexedArray(vec![])), EnvironmentScope::Global).unwrap();
    assert!(is_set_assoc_array(&env, "map"));
    assert!(is_set_assoc_array(&env, "decl"));
    assert!(!is_set_assoc_array(&env, "arr"));
    assert!(!is_set_assoc_array(&env, "missing"));
}

#[test]
fn variable_names_with_prefix_are_sorted_fields() {
    let mut env = ShellEnvironment::new();
    for name in ["pb", "pa", "q", "pc"] {
        env.add(name, ShellVariable::new(ShellValue::String("v".to_owned())), EnvironmentScope::Global).unwrap();
    }
    env.push_scope(EnvironmentScope::Local);
    env.add("pa", ShellVariable::new(ShellValue::String("w".to_owned())), EnvironmentScope::Local).unwrap();
    let e = expand_variable_names(&env, "p", false);
    assert!(e.from_array);
    assert!(!e.undefined);
    assert!(!e.concatenate);
    let split = |t: &str| vec![ExpansionPiece::Splittable(t.to_owned())];
    assert_eq!(text_of(&e), vec![split("pa"), split("pb"), split("pc")]);

    let none = expand_variable_names(&env, "zz", true);
    assert!(none.fields.is_empty());
    assert!(none.concatenate);

    let empty = expand_variable_names(&env, "", true);
    assert_eq!(text_of(&empty), vec![split("")]);
    assert!(!empty.from_array);
}

#[test]
fn first_char_case_changes() {
    assert_eq!(change_first_char("hello", CaseChange::Upper, true), "Hello");
    assert_eq!(change_first_char("Hello", CaseChange::Lower, true), "hello");
    assert_eq!(change_first_char("hello", CaseChange::Upper, false), "hello");
    assert_eq!(change_first_char("", CaseChange::Upper, true), "");
    assert_eq!(change_first_char("1abc", CaseChange::Upper, true), "1abc");
}

#[test]
fn checked_expansion_reports_the_message() {
    assert!(check_parameter_set(ParameterTestType::UnsetOrNull, ParameterState::NonZeroLength, "m").is_ok());
    assert!(check_parameter_set(ParameterTestType::Unset, ParameterState::DefinedEmptyString, "m").is_ok());
    let e = check_parameter_set(ParameterTestType::UnsetOrNull, ParameterState::DefinedEmptyString, "x is empty")
        .unwrap_err();
    match e.kind() {
        ErrorKind::CheckedExpansionError(m) => assert_eq!(m, "x is empty"),
        other => panic!("unexpected {other:?}"),
    }
    assert!(check_parameter_set(ParameterTestType::Unset, ParameterState::Undefined, "").is_err());
}

#[test]
fn shell_name_goes_first_in_positional_slices() {
    let e = Expansion {
        fields: vec![brush_core::expansion::WordField::from_text("a".to_owned())],
        concatenate: false,
        from_array: true,
        undefined: false,
    };
    let r = insert_shell_name(e, Some("brush"));
    assert_eq!(
        text_of(&r),
        vec![vec![ExpansionPiece::Splittable("brush".to_owned())], vec![ExpansionPiece::Splittable("a".to_owned())]]
    );
    assert!(r.from_array);
    let r = insert_shell_name(Expansion::default(), None);
    assert_eq!(text_of(&r), vec![vec![ExpansionPiece::Splittable(String::new())]]);
}

#[test]
fn all_chars_case_changes() {
    assert_eq!(change_all_chars("Hello World", CaseChange::Upper), "HELLO WORLD");
    assert_eq!(change_all_chars("Hello World", CaseChange::Lower), "hello world");
    assert_eq!(change_all_chars("straße", CaseChange::Upper), "STRASSE");
}
