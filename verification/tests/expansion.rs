use brush_core::expansion::fieldsplit::split_fields;
use brush_core::expansion::shape::{coalesce_expansions, may_contain_braces_to_expand, ParameterState};
use brush_core::expansion::{to_initial_capitals, Expansion, ExpansionPiece, WordField};

type Pieces = Vec<Vec<ExpansionPiece>>;

fn s(text: &str) -> ExpansionPiece {
    ExpansionPiece::Splittable(text.into())
}

fn u(text: &str) -> ExpansionPiece {
    ExpansionPiece::Unsplittable(text.into())
}

fn l(text: &str) -> ExpansionPiece {
    ExpansionPiece::UnquotedLiteral(text.into())
}

fn split(ifs: &str, fields: Pieces) -> Pieces {
    let expansion = Expansion { fields: fields.into_iter().map(WordField).collect(), ..Expansion::default() };
    split_fields(ifs, expansion).into_iter().map(|field| field.0).collect()
}

#[test]
fn splits_like_bash() {
    let cases: Vec<(&str, Pieces, Pieces)> = vec![
        (" \t\n", vec![vec![s("  a \t b\n")]], vec![vec![s("a")], vec![s("b")]]),
        (":", vec![vec![s("a:b")]], vec![vec![s("a")], vec![s("b")]]),
        (":", vec![vec![s("a::b")]], vec![vec![s("a")], vec![], vec![s("b")]]),
        (":", vec![vec![s(":a")]], vec![vec![], vec![s("a")]]),
        (":", vec![vec![s("a:")]], vec![vec![s("a")]]),
        (":", vec![vec![s(":")]], vec![vec![]]),
        (":", vec![vec![s("::")]], vec![vec![], vec![]]),
        (": ", vec![vec![s("a : b")]], vec![vec![s("a")], vec![s("b")]]),
        (": ", vec![vec![s("a :: b")]], vec![vec![s("a")], vec![], vec![s("b")]]),
        (": ", vec![vec![s(" :a")]], vec![vec![], vec![s("a")]]),
        (": ", vec![vec![s(": a")]], vec![vec![], vec![s("a")]]),
        (": ", vec![vec![s(":  :a")]], vec![vec![], vec![], vec![s("a")]]),
        (": ", vec![vec![s("a: ")]], vec![vec![s("a")]]),
        (":", vec![vec![l("a:b")]], vec![vec![l("a:b")]]),
        (":", vec![vec![s("1:2"), l(":3")]], vec![vec![s("1")], vec![s("2"), l(":3")]]),
        (":", vec![vec![s("1:"), l(":3")]], vec![vec![s("1")], vec![l(":3")]]),
        (":", vec![vec![u("a:b"), s(":c")]], vec![vec![u("a:b")], vec![s("c")]]),
        (":", vec![vec![u("a:b"), s("c")]], vec![vec![u("a:b"), s("c")]]),
        (":", vec![vec![u("")]], vec![vec![u("")]]),
        (":", vec![vec![u("A")], vec![u("")]], vec![vec![u("A")], vec![u("")]]),
        (":", vec![vec![s("1:"), s(":4")]], vec![vec![s("1")], vec![], vec![s("4")]]),
        (
            ":",
            vec![vec![s("a:b")], vec![s("c::d")]],
            vec![vec![s("a")], vec![s("b")], vec![s("c")], vec![], vec![s("d")]],
        ),
        (":", vec![vec![s("")]], vec![]),
        ("", vec![vec![s("a b")]], vec![vec![s("a b")]]),
        ("\r", vec![vec![s("a\rb\r\rc")]], vec![vec![s("a")], vec![s("b")], vec![s("c")]]),
        ("\u{a0}", vec![vec![s("a\u{a0}\u{a0}b")]], vec![vec![s("a")], vec![], vec![s("b")]]),
    ];

    for (ifs, input, expected) in cases {
        let actual = split(ifs, input.clone());
        assert_eq!(actual, expected, "ifs={ifs:?} input={input:?}");
    }
}

#[test]
fn split_merges_adjacent_splittable_text() {
    assert_eq!(split("", vec![vec![s("a"), s("b")]]), vec![vec![s("ab")]]);
    assert_eq!(split(":", vec![vec![l(""), s("x")]]), vec![vec![s("x")]]);
}

#[test]
fn test_to_initial_capitals() {
    assert_eq!(to_initial_capitals("ab bc cd"), String::from("Ab Bc Cd"));
    assert_eq!(to_initial_capitals(" a "), String::from(" A "));
    assert_eq!(to_initial_capitals(""), String::new());
}

#[test]
fn initial_capitals_use_full_case_mapping() {
    assert_eq!(to_initial_capitals("ßa éb"), String::from("SSa Éb"));
    assert_eq!(to_initial_capitals("a\u{3000}b"), String::from("A\u{3000}B"));
}

#[test]
fn word_field_text_joins_pieces() {
    let field = WordField(vec![u("a"), s("b"), l("c")]);
    assert_eq!(field.text(), "abc");
}

fn expansion(fields: Pieces) -> Expansion {
    Expansion { fields: fields.into_iter().map(WordField).collect(), ..Expansion::default() }
}

fn pieces(e: Expansion) -> Pieces {
    e.fields.into_iter().map(|f| f.0).collect()
}

#[test]
fn classify_tells_undefined_empty_and_set_apart() {
    assert_eq!(Expansion::undefined().classify(), ParameterState::Undefined);
    assert_eq!(expansion(vec![vec![s(""), u("")]]).classify(), ParameterState::DefinedEmptyString);
    assert_eq!(expansion(vec![]).classify(), ParameterState::DefinedEmptyString);
    assert_eq!(expansion(vec![vec![s("")], vec![u("x")]]).classify(), ParameterState::NonZeroLength);
}

#[test]
fn undefined_expansion_is_one_empty_field() {
    let e = Expansion::undefined();
    assert!(e.undefined);
    assert!(e.concatenate);
    assert!(!e.from_array);
    assert_eq!(pieces(e), vec![vec![s("")]]);
}

#[test]
fn polymorphic_len_counts_bytes_or_elements() {
    assert_eq!(expansion(vec![vec![s("ab"), u("é")], vec![l("c")]]).polymorphic_len(), 5);
    let mut arr = expansion(vec![vec![s("abc")], vec![s("d")]]);
    arr.from_array = true;
    assert_eq!(arr.polymorphic_len(), 2);
}

#[test]
fn polymorphic_subslice_of_text_keeps_piece_kinds() {
    let e = expansion(vec![vec![s("ab"), u("cd")], vec![s("ef")]]);
    assert_eq!(pieces(e.polymorphic_subslice(1, 4)), vec![vec![s("b"), u("cd")]]);
    let e = expansion(vec![vec![s("ab"), u("cd")], vec![s("ef")]]);
    assert_eq!(pieces(e.polymorphic_subslice(3, 5)), vec![vec![u("d")], vec![s("e")]]);
    let e = expansion(vec![vec![s("héllo")]]);
    assert_eq!(pieces(e.polymorphic_subslice(1, 3)), vec![vec![s("él")]]);
    let e = expansion(vec![vec![s("ab")]]);
    assert!(pieces(e.polymorphic_subslice(5, 9)).is_empty());
}

#[test]
fn polymorphic_subslice_of_array_takes_elements() {
    let mut arr = expansion(vec![vec![s("a")], vec![s("b")], vec![s("c")]]);
    arr.from_array = true;
    let sub = arr.polymorphic_subslice(1, 5);
    assert!(sub.from_array);
    assert_eq!(pieces(sub), vec![vec![s("b")], vec![s("c")]]);
}

#[test]
fn coalesced_expansions_join_at_the_seams() {
    let first = expansion(vec![vec![s("a")], vec![s("b")]]);
    let mut second = expansion(vec![vec![u("c")], vec![u("d")]]);
    second.from_array = true;
    second.concatenate = false;
    let joined = coalesce_expansions(vec![first, second]);
    assert!(joined.from_array);
    assert!(!joined.concatenate);
    assert!(!joined.undefined);
    assert_eq!(pieces(joined), vec![vec![s("a")], vec![s("b"), u("c")], vec![u("d")]]);
    let none = coalesce_expansions(vec![]);
    assert!(none.concatenate);
    assert!(pieces(none).is_empty());
}

#[test]
fn braces_worth_expanding() {
    assert!(may_contain_braces_to_expand("a{b,c}"));
    assert!(!may_contain_braces_to_expand("${x}"));
    assert!(may_contain_braces_to_expand("\\${a}"));
    assert!(may_contain_braces_to_expand("}{"));
    assert!(!may_contain_braces_to_expand("{"));
    assert!(!may_contain_braces_to_expand("plain"));
}

#[test]
fn field_len_counts_bytes() {
    assert_eq!(WordField(vec![s("ab"), u("é")]).len(), 4);
    assert_eq!(WordField::new().len(), 0);
}

#[test]
fn incoming_fields_split_separately() {
    let a = vec![vec![s("x y")], vec![s("z:")]];
    let b = vec![vec![s(" w"), u("v")]];
    let mut both = a.clone();
    both.extend(b.clone());
    let mut expected = split(" :", a);
    expected.extend(split(" :", b));
    assert_eq!(split(" :", both), expected);
    assert_eq!(expected, vec![vec![s("x")], vec![s("y")], vec![s("z")], vec![s("w"), u("v")]]);
}
