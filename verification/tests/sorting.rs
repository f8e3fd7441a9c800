use brush_core::sorting::sorted_strings;

#[test]
fn strings_are_sorted_by_char() {
    let v: Vec<String> = vec!["b".into(), "a".into(), "ab".into(), "B".into(), "a".into(), "é".into()];
    assert_eq!(sorted_strings(v), vec!["B", "a", "a", "ab", "b", "é"]);
    assert!(sorted_strings(vec![]).is_empty());
}
