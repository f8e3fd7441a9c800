use brush_core::env::ShellEnvironment;
use brush_core::error::ErrorKind;
use brush_core::extendedtests::{
    apply_binary_predicate_to_strs, apply_test_binary_arithmetic_predicate, apply_unary_predicate_to_str,
    files_refer_to_same_device_and_inode_numbers, left_file_is_newer_or_exists_when_right_does_not,
    left_file_is_older_or_does_not_exist_when_right_does, str_less, ArithComparison, BinaryPredicate,
    BinaryTestOutcome, FileComparison, FileTime, UnaryPredicate, UnaryTestOutcome,
};

#[test]
fn arithmetic_comparisons_read_signed_integers() {
    assert!(apply_test_binary_arithmetic_predicate("10", "10", ArithComparison::EqualTo));
    assert!(apply_test_binary_arithmetic_predicate("-3", "2", ArithComparison::LessThan));
    assert!(!apply_test_binary_arithmetic_predicate("3", "2", ArithComparison::LessThanOrEqualTo));
    assert!(apply_test_binary_arithmetic_predicate("+7", "7", ArithComparison::EqualTo));
    assert!(apply_test_binary_arithmetic_predicate("9", "8", ArithComparison::GreaterThan));
    assert!(apply_test_binary_arithmetic_predicate("1", "2", ArithComparison::NotEqualTo));
    assert!(apply_test_binary_arithmetic_predicate("2", "2", ArithComparison::GreaterThanOrEqualTo));
}

#[test]
fn arithmetic_comparison_of_non_numbers_is_false() {
    assert!(!apply_test_binary_arithmetic_predicate("abc", "abc", ArithComparison::EqualTo));
    assert!(!apply_test_binary_arithmetic_predicate("1", "", ArithComparison::NotEqualTo));
    // Out of the range of i64.
    assert!(!apply_test_binary_arithmetic_predicate("9223372036854775808", "0", ArithComparison::GreaterThan));
}

#[test]
fn strings_sort_by_code_point() {
    assert!(str_less("a", "b"));
    assert!(str_less("ab", "abc"));
    assert!(!str_less("abc", "ab"));
    assert!(!str_less("a", "a"));
    assert!(str_less("Z", "a"));
}

#[test]
fn binary_predicates_on_strings() {
    let decided = |op, l, r| match apply_binary_predicate_to_strs(op, l, r) {
        Ok(BinaryTestOutcome::Decided(b)) => b,
        other => panic!("unexpected outcome {other:?}"),
    };
    assert!(decided(BinaryPredicate::StringExactlyMatchesString, "x", "x"));
    assert!(decided(BinaryPredicate::StringDoesNotExactlyMatchString, "x", "y"));
    assert!(decided(BinaryPredicate::LeftSortsBeforeRight, "a", "b"));
    assert!(decided(BinaryPredicate::LeftSortsAfterRight, "b", "a"));
    assert!(decided(BinaryPredicate::ArithmeticLessThan, "1", "2"));
    assert!(!decided(BinaryPredicate::ArithmeticGreaterThanOrEqualTo, "1", "2"));
}

#[test]
fn binary_predicates_left_to_the_caller() {
    assert!(matches!(
        apply_binary_predicate_to_strs(BinaryPredicate::FilesReferToSameDeviceAndInodeNumbers, "a", "b"),
        Ok(BinaryTestOutcome::CompareFiles(FileComparison::SameDeviceAndInode))
    ));
    assert!(matches!(
        apply_binary_predicate_to_strs(BinaryPredicate::StringDoesNotExactlyMatchPattern, "a", "*"),
        Ok(BinaryTestOutcome::MatchPattern { negate: true })
    ));
}

#[test]
fn unsupported_binary_predicate_is_unimplemented() {
    let err = apply_binary_predicate_to_strs(BinaryPredicate::StringMatchesRegex, "a", "a").unwrap_err();
    assert!(matches!(err.kind(), ErrorKind::Unimplemented(_)));
}

#[test]
fn unary_predicates_on_strings() {
    let env = ShellEnvironment::new();
    assert!(matches!(
        apply_unary_predicate_to_str(UnaryPredicate::StringHasZeroLength, "", &env),
        Ok(UnaryTestOutcome::Decided(true))
    ));
    assert!(matches!(
        apply_unary_predicate_to_str(UnaryPredicate::StringHasNonZeroLength, "", &env),
        Ok(UnaryTestOutcome::Decided(false))
    ));
    assert!(matches!(
        apply_unary_predicate_to_str(UnaryPredicate::FdIsOpenTerminal, "2", &env),
        Ok(UnaryTestOutcome::CheckTerminal(2))
    ));
    assert!(matches!(
        apply_unary_predicate_to_str(UnaryPredicate::FdIsOpenTerminal, "x", &env),
        Ok(UnaryTestOutcome::Decided(false))
    ));
    assert!(matches!(
        apply_unary_predicate_to_str(UnaryPredicate::FileExistsAndIsDir, "/", &env),
        Ok(UnaryTestOutcome::CheckFile(UnaryPredicate::FileExistsAndIsDir))
    ));
    assert!(matches!(
        apply_unary_predicate_to_str(UnaryPredicate::ShellVariableIsSetAndAssigned, "NOPE", &env),
        Ok(UnaryTestOutcome::Decided(false))
    ));
    let err = apply_unary_predicate_to_str(UnaryPredicate::FileExistsAndModifiedSinceLastRead, "f", &env).unwrap_err();
    assert!(matches!(err.kind(), ErrorKind::Unimplemented(_)));
}

#[test]
fn file_time_comparisons() {
    let early = FileTime { secs: 10, nanos: 5 };
    let late = FileTime { secs: 10, nanos: 6 };
    assert!(left_file_is_older_or_does_not_exist_when_right_does(Some(early), Some(late)));
    assert!(!left_file_is_older_or_does_not_exist_when_right_does(Some(late), Some(early)));
    assert!(left_file_is_older_or_does_not_exist_when_right_does(None, Some(early)));
    assert!(!left_file_is_older_or_does_not_exist_when_right_does(Some(early), None));
    assert!(!left_file_is_older_or_does_not_exist_when_right_does(None, None));
    assert!(left_file_is_newer_or_exists_when_right_does_not(Some(late), Some(early)));
    assert!(!left_file_is_newer_or_exists_when_right_does_not(Some(early), Some(early)));
    assert!(left_file_is_newer_or_exists_when_right_does_not(Some(early), None));
    assert!(!left_file_is_newer_or_exists_when_right_does_not(None, Some(early)));
}

#[test]
fn same_file_needs_both_readable() {
    assert!(files_refer_to_same_device_and_inode_numbers(Some((1, 2)), Some((1, 2))));
    assert!(!files_refer_to_same_device_and_inode_numbers(Some((1, 2)), Some((1, 3))));
    assert!(!files_refer_to_same_device_and_inode_numbers(None, Some((1, 2))));
}

use brush_core::extendedtests::{record_regex_match, record_regex_outcome, string_contains_substring, RegexOutcome};
use brush_core::variables::ShellValue;

#[test]
fn substring_containment() {
    assert!(string_contains_substring("haystack", "st"));
    assert!(string_contains_substring("abc", ""));
    assert!(!string_contains_substring("abc", "abcd"));
}

#[test]
fn regex_match_sets_bash_rematch() {
    let mut env = ShellEnvironment::new();
    assert!(record_regex_match(&mut env, Some(vec![Some("ab".into()), None, Some("b".into())])).unwrap());
    let (_, var) = env.get("BASH_REMATCH").unwrap();
    match var.value() {
        ShellValue::IndexedArray(v) => {
            assert_eq!(v, &vec![(0, "ab".to_owned()), (1, String::new()), (2, "b".to_owned())]);
        }
        other => panic!("unexpected {other:?}"),
    }
    assert!(!record_regex_match(&mut env, None).unwrap());
}

#[test]
fn invalid_regex_is_an_error_and_leaves_bash_rematch() {
    let mut env = ShellEnvironment::new();
    assert!(record_regex_outcome(&mut env, RegexOutcome::Matched(vec![Some("x".into())])).unwrap());
    let e = record_regex_outcome(
        &mut env,
        RegexOutcome::Invalid { error: "unclosed group".to_owned(), expression: "(a".to_owned() },
    )
    .unwrap_err();
    match e.kind() {
        ErrorKind::InvalidRegexError(m, x) => {
            assert_eq!(m, "unclosed group");
            assert_eq!(x, "(a");
        }
        other => panic!("unexpected {other:?}"),
    }
    match env.get("BASH_REMATCH").unwrap().1.value() {
        ShellValue::IndexedArray(v) => assert_eq!(v, &vec![(0, "x".to_owned())]),
        other => panic!("unexpected {other:?}"),
    }
    assert!(!record_regex_outcome(&mut env, RegexOutcome::NoMatch).unwrap());
}
