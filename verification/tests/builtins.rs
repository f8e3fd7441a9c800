use brush_core::builtins::unset::UnsetNameInterpretation;

#[test]
fn unset_interpretation_unspecified_only_without_flags() {
    assert!(UnsetNameInterpretation::default().unspecified());
    let f = UnsetNameInterpretation { shell_functions: true, ..UnsetNameInterpretation::default() };
    assert!(!f.unspecified());
    let v = UnsetNameInterpretation { shell_variables: true, ..UnsetNameInterpretation::default() };
    assert!(!v.unspecified());
    let n = UnsetNameInterpretation { name_references: true, ..UnsetNameInterpretation::default() };
    assert!(!n.unspecified());
}
