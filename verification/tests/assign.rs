use brush_core::completion::wordlist::WordParseOptions;
use brush_core::env::{EnvironmentScope, ShellEnvironment};
use brush_core::error::ErrorKind;
use brush_core::expansion::assign::{
    assign_to_target, parameter_assignment_target, plan_named_parameter_assignment, AssignmentTarget, Parameter,
    SpecialParameter,
};
use brush_core::variables::{ShellValue, ShellVariable};

fn options() -> WordParseOptions {
    WordParseOptions {
        enable_extended_globbing: true,
        posix_mode: false,
        sh_mode: false,
        tilde_expansion_at_word_start: true,
        tilde_expansion_after_colon: false,
    }
}

#[test]
fn plain_name_is_a_scalar_target() {
    match plan_named_parameter_assignment("var", &options()).unwrap() {
        AssignmentTarget::Scalar(n) => assert_eq!(n, "var"),
        other => panic!("unexpected {other:?}"),
    }
}

#[test]
fn subscripted_name_is_an_element_target() {
    match plan_named_parameter_assignment("arr[1+1]", &options()).unwrap() {
        AssignmentTarget::Element { name, index } => {
            assert_eq!(name, "arr");
            assert_eq!(index, "1+1");
        }
        other => panic!("unexpected {other:?}"),
    }
}

#[test]
fn special_and_positional_parameters_cannot_be_assigned() {
    for name in ["1", "@", "#", "?", "0", "arr[@]", "arr[*]"] {
        let e = plan_named_parameter_assignment(name, &options()).unwrap_err();
        assert!(matches!(e.kind(), ErrorKind::CannotAssignToSpecialParameter), "{name}");
    }
    let e = parameter_assignment_target(&Parameter::Special(SpecialParameter::ProcessId)).unwrap_err();
    assert!(matches!(e.kind(), ErrorKind::CannotAssignToSpecialParameter));
}

#[test]
fn text_that_names_no_parameter_is_a_parse_error() {
    let e = plan_named_parameter_assignment("not a name", &options()).unwrap_err();
    assert!(matches!(e.kind(), ErrorKind::WordParseError(_)));
}

#[test]
fn assigning_to_targets_writes_the_variable_or_element() {
    let mut env = ShellEnvironment::new();
    assign_to_target(&mut env, AssignmentTarget::Scalar("x".to_owned()), "1".to_owned()).unwrap();
    match env.get("x").unwrap().1.value() {
        ShellValue::String(s) => assert_eq!(s, "1"),
        other => panic!("unexpected {other:?}"),
    }
    env.add("arr", ShellVariable::new(ShellValue::IndexedArray(vec![(0, "a".to_owned())])), EnvironmentScope::Global)
        .unwrap();
    let t = AssignmentTarget::Element { name: "arr".to_owned(), index: "2".to_owned() };
    assign_to_target(&mut env, t, "c".to_owned()).unwrap();
    let arr = env.get("arr").unwrap().1;
    assert_eq!(arr.get_at("2").as_deref(), Some("c"));
    assert_eq!(arr.get_at("0").as_deref(), Some("a"));
}
