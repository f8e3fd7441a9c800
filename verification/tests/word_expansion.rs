use brush_core::completion::wordlist::{PieceKind, WordParseOptions};
use brush_core::expansion::word::{
    command_output_expansion, expansion_step, word_expansion_plan, ExpansionAction, ExpansionState, PieceAction,
};
use brush_core::expansion::{Expansion, ExpansionPiece};

fn options() -> WordParseOptions {
    WordParseOptions {
        enable_extended_globbing: true,
        posix_mode: false,
        sh_mode: false,
        tilde_expansion_at_word_start: true,
        tilde_expansion_after_colon: false,
    }
}

fn pieces(e: &Expansion) -> Vec<Vec<ExpansionPiece>> {
    e.fields.iter().map(|f| f.0.clone()).collect()
}

#[test]
fn plain_word_is_one_splittable_piece() {
    let plan = word_expansion_plan("plain", &options()).unwrap();
    assert_eq!(plan.len(), 1);
    match &plan[0] {
        PieceAction::Ready(e) => assert_eq!(pieces(e), vec![vec![ExpansionPiece::Splittable("plain".to_owned())]]),
        other => panic!("unexpected {other:?}"),
    }
}

#[test]
fn literal_pieces_expand_and_others_are_handed_out() {
    let plan = word_expansion_plan(r"a'b c'\d$x", &options()).unwrap();
    let mut state = ExpansionState::new(plan);
    let (next, action) = expansion_step(state, None);
    state = next;
    match action {
        ExpansionAction::Expand { kind, source } => {
            assert_eq!(kind, PieceKind::ShellExpansion);
            assert_eq!(source, "$x");
        }
        other => panic!("unexpected {other:?}"),
    }
    let (_, action) = expansion_step(state, Some(command_output_expansion("val\n\n")));
    match action {
        ExpansionAction::Done(e) => assert_eq!(
            pieces(&e),
            vec![vec![
                ExpansionPiece::Splittable("a".to_owned()),
                ExpansionPiece::Unsplittable("b c".to_owned()),
                ExpansionPiece::Unsplittable("d".to_owned()),
                ExpansionPiece::Splittable("val".to_owned()),
            ]]
        ),
        other => panic!("unexpected {other:?}"),
    }
}

#[test]
fn command_output_loses_only_trailing_newlines() {
    let e = command_output_expansion("\na\nb\n\n");
    assert_eq!(pieces(&e), vec![vec![ExpansionPiece::Splittable("\na\nb".to_owned())]]);
}

#[test]
fn unparsable_word_is_a_parse_error() {
    let e = word_expansion_plan("'abc", &options()).unwrap_err();
    assert!(matches!(e.kind(), brush_core::error::ErrorKind::WordParseError(_)));
}
