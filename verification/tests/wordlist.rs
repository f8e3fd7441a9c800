use brush_core::completion::generate::word_break_chars;
use brush_core::completion::wordlist::{split_completion_word_list, WordParseOptions};

fn options() -> WordParseOptions {
    WordParseOptions {
        enable_extended_globbing: true,
        posix_mode: false,
        sh_mode: false,
        tilde_expansion_at_word_start: true,
        tilde_expansion_after_colon: false,
    }
}

fn split(list: &str, ifs: &str) -> Vec<String> {
    split_completion_word_list(list, ifs, &options()).unwrap()
}

#[test]
fn word_list_splits_on_ifs() {
    assert_eq!(split("alpha beta  gamma", " \t\n"), vec!["alpha", "beta", "gamma"]);
    assert_eq!(split("  lead trail  ", " \t\n"), vec!["lead", "trail"]);
    assert_eq!(split("a:b", ":"), vec!["a", "b"]);
    assert!(split("", " ").is_empty());
}

#[test]
fn word_list_keeps_quoted_and_expanded_text_whole() {
    assert_eq!(split("'x y' z", " "), vec!["'x y'", "z"]);
    assert_eq!(split("\"a b\"c d", " "), vec!["\"a b\"c", "d"]);
    assert_eq!(split("a\\ b c", " "), vec!["a\\ b", "c"]);
    assert_eq!(split("$HOME x", " "), vec!["$HOME", "x"]);
}

#[test]
fn word_list_open_quote_runs_to_the_end() {
    assert_eq!(split("one 'two three", " "), vec!["one", "'two three'"]);
}

#[test]
fn word_list_with_non_ascii_text() {
    assert_eq!(split("é ü", " "), vec!["é", "ü"]);
}

#[test]
fn word_breaks_default_to_readline() {
    assert_eq!(word_break_chars(None), " \t\n\"'@><=;|&(:".chars().collect::<Vec<char>>());
    assert_eq!(word_break_chars(Some(" =")), vec![' ', '=']);
}

use brush_core::completion::generate::variable_completions;

#[test]
fn variable_references_complete_to_sorted_names() {
    let names = ["HOME", "HOSTNAME", "PATH", "HISTSIZE"];
    assert_eq!(variable_completions("$HO", &names), Some(vec!["$HOME".to_owned(), "$HOSTNAME".to_owned()]));
    assert_eq!(variable_completions("${H", &names), Some(vec!["${HISTSIZE}".to_owned(), "${HOME}".to_owned(), "${HOSTNAME}".to_owned()]));
    assert_eq!(variable_completions("$Z", &names), Some(vec![]));
    assert_eq!(variable_completions("${HO}", &names), None);
    assert_eq!(variable_completions("$HOME/x", &names), None);
    assert_eq!(variable_completions("HO", &names), None);
}
