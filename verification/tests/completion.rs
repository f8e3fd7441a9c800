use brush_core::completion::edits::{common_prefix, common_str_prefix, CandidateEdits};
use brush_core::completion::quoting::{open_quote, Quote, QuotedCandidate, Quoter};
use brush_core::completion::words::{comp_words, find_completion_word, find_line_words};
use brush_core::completion::{
    CandidateKind, CompleteOption, Completions, Edit, EditPrefs, GenerationOptions, ResolvedCandidate,
};

// Quoting.

#[test]
fn open_quote_at_end() {
    assert_eq!(open_quote("abc"), None);
    assert_eq!(open_quote("'a b"), Some(Quote::Single));
    assert_eq!(open_quote(r#""a\"b"#), Some(Quote::Double));
    assert_eq!(open_quote("'a'b\"c"), Some(Quote::Double));
    assert_eq!(open_quote(r"a\'b"), None);
    assert_eq!(open_quote("'a\"b'"), None);
}

fn file_name_quoter(quote: Option<Quote>) -> Quoter {
    Quoter { open_quote: quote, quote_file_names: true }
}

#[test]
fn expanding_file_names_keep_expanding() {
    let quote = |text: &str, expanded: &str, quote| {
        let candidate = ResolvedCandidate {
            expanded: Some(expanded.to_owned()),
            ..ResolvedCandidate::file_name(text)
        };
        let quoted = file_name_quoter(quote).quote(&candidate, false);
        quoted.closed.unwrap_or(quoted.text)
    };

    for (text, expanded, q, expected) in [
        ("~/Docs dir/", "/h/Docs dir/", None, r"~/Docs\ dir/"),
        ("~/plainfile", "/h/plainfile", None, "~/plainfile"),
        ("~/", "/h/", None, "~/"),
        ("$HOME/Docs dir/", "/h/Docs dir/", None, r#""$HOME/Docs dir"/"#),
        ("$HOME/plainfile", "/h/plainfile", None, "$HOME/plainfile"),
        ("${HOME}/plainfile", "/h/plainfile", None, "${HOME}/plainfile"),
        ("$HOME/Docs dir/", "/h/Docs dir/", Some(Quote::Double), r#""$HOME/Docs dir"/"#),
        ("$HOME/Docs dir/", "/h/Docs dir/", Some(Quote::Single), "'$HOME/Docs dir'/"),
        ("~/Docs dir/", "/h/Docs dir/", Some(Quote::Double), r#""/h/Docs dir"/"#),
        ("~/Docs dir/", "/h/Docs dir/", Some(Quote::Single), "'/h/Docs dir'/"),
    ] {
        assert_eq!(quote(text, expanded, q), expected, "{text:?} in {q:?}");
    }

    assert_eq!(
        file_name_quoter(None).quote(&ResolvedCandidate::file_name("a$b"), false),
        QuotedCandidate { text: r"a\$b".to_owned(), closed: None }
    );
}

#[test]
fn file_names_in_open_quote() {
    for (text, q, expected_text, expected_closed) in [
        ("it's", Quote::Double, r#""it's"#, Some(r#""it's""#)),
        ("it's", Quote::Single, r"'it'\''s", Some(r"'it'\''s'")),
        ("dir with space/", Quote::Double, r#""dir with space/"#, Some(r#""dir with space"/"#)),
        ("plain", Quote::Double, r#""plain"#, None),
        ("sub/", Quote::Single, "'sub/", None),
    ] {
        let quoted = file_name_quoter(Some(q)).quote(&ResolvedCandidate::file_name(text), false);
        assert_eq!(quoted.text, expected_text, "{text:?} in {q:?}");
        assert_eq!(quoted.closed.as_deref(), expected_closed, "{text:?} in {q:?}");
    }
}

#[test]
fn candidates_that_are_not_file_names_are_not_quoted() {
    let quoter = Quoter { open_quote: Some(Quote::Double), quote_file_names: true };
    assert_eq!(
        quoter.quote(&ResolvedCandidate::new("a b"), false),
        QuotedCandidate { text: "\"a b".to_owned(), closed: None }
    );
}

#[test]
fn file_names_are_left_unquoted_when_quoting_is_off() {
    let quoter = Quoter { open_quote: None, quote_file_names: false };
    assert_eq!(
        quoter.quote(&ResolvedCandidate::file_name("a b"), true),
        QuotedCandidate { text: "a b/".to_owned(), closed: None }
    );
}

// Words.

#[test]
fn completion_word_like_readline() {
    let word_with = |delims: &str, input: &str, cursor: usize| {
        let delims: Vec<char> = delims.chars().collect();
        let word = find_completion_word(input, &delims, cursor);
        (word.text, word.quoting.quote)
    };
    let word = |input: &str, cursor: usize| word_with(" \t\n\"'><=;|&(:", input, cursor);
    let unquoted = |text: &str| (text.to_owned(), None);
    let quoted = |text: &str, q| (text.to_owned(), Some(q));

    assert_eq!(word("", 0), unquoted(""));
    assert_eq!(word("ls fo", 5), unquoted("fo"));
    assert_eq!(word("ls fo", 4), unquoted("f"));
    assert_eq!(word("ls ", 3), unquoted(""));
    assert_eq!(word("ls --opt=", 9), unquoted(""));
    assert_eq!(word("ls --opt=val", 12), unquoted("val"));
    assert_eq!(word("ls --opt=val", 9), unquoted(""));
    assert_eq!(word("ls --opt=val", 8), unquoted("--opt"));
    assert_eq!(word("ls a:=b", 5), unquoted(""));
    assert_eq!(word("ls a\\:b", 7), unquoted("a\\:b"));
    assert_eq!(word("ls \"a b\"c=d", 11), unquoted("d"));
    assert_eq!(word("ls 'a b'c", 9), unquoted("'a b'c"));
    assert_eq!(word("ls é:ü", 8), unquoted("ü"));

    let word = |input: &str, cursor: usize| word_with(" \t\n\"'><=;|&(:@", input, cursor);
    assert_eq!(word("ls a@b", 6), unquoted("@b"));
    assert_eq!(word("ls a:@b", 7), unquoted("@b"));
    assert_eq!(word("ls a@:b", 7), unquoted("b"));
    assert_eq!(word("ls a@", 5), unquoted("@"));

    assert_eq!(word("ls 'a b:c", 9), quoted("a b:c", Quote::Single));
    assert_eq!(word("ls x'a b", 8), quoted("a b", Quote::Single));
    assert_eq!(word("ls --x=\"a", 9), quoted("a", Quote::Double));
    assert_eq!(word(r#"ls "a\"b"#, 8), quoted(r#"a\"b"#, Quote::Double));
    assert_eq!(word(r"ls 'a\'b", 8), unquoted(r"'a\'b"));
    assert_eq!(word(r"ls \'a", 6), unquoted(r"\'a"));
}

#[test]
fn completion_word_range_starts_at_its_quote() {
    let breaks: Vec<char> = " ".chars().collect();
    let word = find_completion_word("ls é'ab", &breaks, 8);
    assert_eq!(word.text, "ab");
    assert_eq!(word.range, 5..8);
    let word = find_completion_word("ls éb", &breaks, 6);
    assert_eq!(word.range, 3..6);
}

fn strings(words: &[&str]) -> Vec<String> {
    words.iter().map(|w| (*w).to_owned()).collect()
}

#[test]
fn line_words_like_bash() {
    fn words(input: &str, cursor: usize) -> (Vec<String>, Option<usize>, Option<String>, Option<String>) {
        let words = find_line_words(input, &[' ', '='], cursor);
        (
            words.comp_words.clone(),
            words.cword,
            words.command_name().map(str::to_owned),
            words.preceding_word().map(str::to_owned),
        )
    }
    let some = |s: &str| Some(s.to_owned());

    assert_eq!(words("", 0), (vec![], None, None, None));
    assert_eq!(words("ls fo", 5), (strings(&["ls", "fo"]), Some(1), some("ls"), some("ls")));
    assert_eq!(words("ls", 2), (strings(&["ls"]), Some(0), some("ls"), some("ls")));
    assert_eq!(words("ls  x", 3), (strings(&["ls", "", "x"]), Some(1), some("ls"), some("ls")));
    assert_eq!(words("ls ", 3), (strings(&["ls", ""]), Some(1), some("ls"), some("ls")));
    assert_eq!(words("ls a=b", 5), (strings(&["ls", "a", "=", "b"]), Some(3), some("ls"), some("=")));
}

#[test]
fn quoting_before_cursor() {
    let has_quoting = |input: &str, cursor| find_completion_word(input, &[' '], cursor).quoting.dequote;

    assert!(!has_quoting("ls a b", 6));
    assert!(has_quoting("ls 'a' b", 8));
    assert!(has_quoting(r"ls a\ b", 7));
    assert!(has_quoting("ls \"a", 5));
    assert!(!has_quoting("ls a 'b'", 4));
}

#[test]
fn completion_tokenization() {
    let words = |input: &str, word_breaks: &str| -> Vec<(String, usize)> {
        let word_breaks: Vec<char> = word_breaks.chars().collect();
        comp_words(input, &word_breaks).into_iter().map(|w| (w.text, w.start)).collect()
    };
    let expected = |words: &[(&str, usize)]| -> Vec<(String, usize)> {
        words.iter().map(|&(text, start)| (text.to_owned(), start)).collect()
    };

    for (input, word_breaks, expected_words) in [
        ("one two", " ", expected(&[("one", 0), ("two", 4)])),
        ("one \t two", " \t", expected(&[("one", 0), ("two", 6)])),
        ("    ", " ", expected(&[])),
        (":", ":", expected(&[(":", 0)])),
        ("a:::b", ": ", expected(&[("a", 0), (":::", 1), ("b", 4)])),
        ("a:=", ":= ", expected(&[("a", 0), (":=", 1)])),
        ("a: : :b", ": ", expected(&[("a", 0), (":", 1), (":", 3), (":", 5), ("b", 6)])),
        ("one two:three", ": ", expected(&[("one", 0), ("two", 4), (":", 7), ("three", 8)])),
        ("one'two", "'", expected(&[("one'two", 0)])),
        ("a'b c' x=\"d e", " =\"'", expected(&[("a'b c'", 0), ("x", 7), ("=", 8), ("\"d e", 9)])),
        ("one 'two:three'", ": ", expected(&[("one", 0), ("'two:three'", 4)])),
        ("one \\'two \"two four\"", ": ", expected(&[("one", 0), ("\\'two", 4), ("\"two four\"", 10)])),
    ] {
        assert_eq!(words(input, word_breaks), expected_words, "{input:?}");
    }
}

// Edits.

fn options(file_names: bool) -> GenerationOptions {
    if file_names {
        GenerationOptions::from_options(&[CompleteOption::FileNames])
    } else {
        GenerationOptions::from_options(&[])
    }
}

fn completions_of(
    candidates: Vec<ResolvedCandidate>,
    line: &str,
    word: &str,
    options: &GenerationOptions,
    quote: Option<Quote>,
    mark_directories: bool,
) -> Completions {
    let mut prefs = EditPrefs::default();
    prefs.mark_directories = mark_directories;
    let editor = CandidateEdits { line, word: 0..word.len(), open_quote: quote, options, prefs: &prefs };
    editor.completions(candidates)
}

fn offered_edits(
    candidates: &[&str],
    line: &str,
    word: &str,
    options: &GenerationOptions,
    quote: Option<Quote>,
) -> Vec<Edit> {
    let candidates = candidates
        .iter()
        .map(|&c| {
            if options.get(CompleteOption::FileNames) {
                ResolvedCandidate::file_name(c)
            } else {
                ResolvedCandidate::new(c)
            }
        })
        .collect();
    let completions = completions_of(candidates, line, word, options, quote, true);
    completions.common_prefix.map_or_else(
        || completions.candidates.into_iter().map(|c| c.edit).collect(),
        |prefix| vec![prefix],
    )
}

#[test]
fn several_candidates_complete_to_common_prefix() {
    let inserts = |candidates: &[&str], line: &str, word: &str, file_names, quote| {
        offered_edits(candidates, line, word, &options(file_names), quote)
            .into_iter()
            .map(|edit| edit.text)
            .collect::<Vec<_>>()
    };

    assert_eq!(inserts(&["item1", "item2"], "ite", "ite", true, None), ["item"]);
    assert_eq!(inserts(&["dir a", "dir b"], "di", "di", true, None), [r"dir\ "]);
    assert_eq!(inserts(&["dir a", "dir b"], "\"di", "\"di", true, Some(Quote::Double)), ["\"dir "]);
    assert_eq!(inserts(&["dir a", "dir b"], "'di", "'di", true, Some(Quote::Single)), ["'dir "]);
    assert_eq!(inserts(&["item1", "item2"], "ite x", "ite", true, None), ["item"]);
    assert_eq!(inserts(&["foo1", "foo2"], "f", "f", false, None), ["foo"]);
    assert_eq!(inserts(&["bar1", "bar2"], "fo", "fo", false, None), ["bar"]);
    assert_eq!(inserts(&["item1", "item2"], "item", "item", true, None), ["item1 ", "item2 "]);
    assert_eq!(inserts(&["dir a", "dir b"], r"dir\ ", r"dir\ ", true, None), [r"dir\ a ", r"dir\ b "]);
}

#[test]
fn duplicate_candidates_are_dropped() {
    let completions = completions_of(
        vec![ResolvedCandidate::new("b"), ResolvedCandidate::new("a"), ResolvedCandidate::new("b")],
        "",
        "",
        &options(false),
        None,
        true,
    );
    let values: Vec<_> = completions.candidates.into_iter().map(|c| c.value).collect();
    assert_eq!(values, ["b", "a"]);
}

#[test]
fn file_names_are_quoted_for_the_line_but_not_as_values() {
    let complete = |candidate: &str, word: &str, quote| {
        let completions =
            completions_of(vec![ResolvedCandidate::file_name(candidate)], word, word, &options(true), quote, true);
        completions.candidates.into_iter().map(|c| (c.edit.text, c.value)).collect::<Vec<_>>()
    };
    let expected = |text: &str, value: &str| vec![(text.to_owned(), value.to_owned())];

    assert_eq!(complete("dir/a b", "d", None), expected(r"dir/a\ b ", "dir/a b"));
    assert_eq!(complete("a$b", "'a", Some(Quote::Single)), expected("'a$b' ", "a$b"));
    assert_eq!(complete("ab/e", "'a", Some(Quote::Single)), expected("'ab/e' ", "ab/e"));
    assert_eq!(complete("a\"b/", "\"a", Some(Quote::Double)), expected(r#""a\"b"/"#, "a\"b/"));
}

#[test]
fn no_space_still_closes_quote() {
    for file_names in [false, true] {
        let mut options = options(file_names);
        options.set(CompleteOption::NoSpace, true);
        let edits = offered_edits(&["value"], "\"va", "\"va", &options, Some(Quote::Double));
        let texts: Vec<_> = edits.into_iter().map(|edit| edit.text).collect();
        assert_eq!(texts, ["\"value\""], "file names: {file_names}");
    }
}

#[test]
fn directories_are_marked_if_configured() {
    let dir = ResolvedCandidate { kind: CandidateKind::FileName { is_dir: true }, ..ResolvedCandidate::new("sub") };
    let complete = |mark_directories| {
        completions_of(vec![dir.clone()], "s", "s", &options(true), None, mark_directories)
            .candidates
            .into_iter()
            .map(|c| (c.edit.text, c.kind))
            .collect::<Vec<_>>()
    };
    let dir_kind = CandidateKind::FileName { is_dir: true };

    assert_eq!(complete(true), [("sub/".to_owned(), dir_kind)]);
    assert_eq!(complete(false), [("sub".to_owned(), dir_kind)]);
}

#[test]
fn file_name_in_open_quote_like_bash() {
    for (candidate, quote, next_char, expected, replaces_closing_quote) in [
        ("it's", Quote::Double, None, r#""it's" "#, false),
        ("it's", Quote::Double, Some(' '), r#""it's""#, false),
        ("it's", Quote::Single, Some(' '), r"'it'\''s'", false),
        ("dir with space/", Quote::Double, None, r#""dir with space"/"#, false),
        ("dir with space/", Quote::Double, Some(' '), r#""dir with space"/"#, false),
        ("plain", Quote::Double, None, r#""plain" "#, false),
        ("plain", Quote::Double, Some(' '), r#""plain"#, false),
        ("sub/", Quote::Single, None, "'sub/", false),
        ("sub/", Quote::Single, Some(' '), "'sub/", false),
        ("it's", Quote::Double, Some('"'), r#""it's""#, true),
        ("dir with space/", Quote::Double, Some('"'), r#""dir with space"/"#, true),
        ("plain", Quote::Double, Some('"'), r#""plain"#, false),
        ("sub/", Quote::Single, Some('\''), "'sub/", false),
    ] {
        let word = format!("{}x", quote.as_char());
        let line = format!("{word}{}", next_char.map(String::from).unwrap_or_default());
        let edits: Vec<_> = completions_of(
            vec![ResolvedCandidate::file_name(candidate)],
            &line,
            &word,
            &options(true),
            Some(quote),
            true,
        )
        .candidates
        .into_iter()
        .map(|c| c.edit)
        .collect();
        let replace = 0..word.len() + usize::from(replaces_closing_quote);
        assert_eq!(
            edits,
            [Edit { replace, text: expected.to_owned() }],
            "{candidate:?} in {quote:?}, before {next_char:?}"
        );
    }
}

#[test]
fn common_prefix_of_candidates() {
    let prefix = common_prefix(&[ResolvedCandidate::new("item1"), ResolvedCandidate::new("item2")]);
    assert_eq!(prefix, ResolvedCandidate::new("item"));

    let expanding = |text: &str, expanded: &str| ResolvedCandidate {
        expanded: Some(expanded.to_owned()),
        ..ResolvedCandidate::file_name(text)
    };
    let prefix = common_prefix(&[expanding("$HOME/Docs", "/h/Docs"), expanding("$HOME/Downloads", "/h/Downloads")]);
    assert_eq!(prefix.text, "$HOME/Do");
    assert_eq!(prefix.expanded.as_deref(), Some("/h/Do"));

    let prefix = common_prefix(&[expanding("~/Docs", "/h/Docs"), expanding("~/Downloads", "/h/Downloads")]);
    assert_eq!(prefix.text, "~/Do");
    assert_eq!(prefix.expanded, None);

    let prefix = common_prefix(&[expanding("$HOME/a", "/h/a"), expanding("$HOSTS/b", "/hosts/b")]);
    assert_eq!(prefix.text, "$HO");
    assert_eq!(prefix.expanded, None);
}

#[test]
fn common_prefix_of_strings() {
    assert_eq!(common_str_prefix(&["item1", "item2", "it"]), "it");
    assert_eq!(common_str_prefix(&["é1", "é2"]), "é");
    assert_eq!(common_str_prefix(&["éa", "èa"]), "");
    assert_eq!(common_str_prefix(&["a"]), "a");
    assert_eq!(common_str_prefix(&[]), "");
}

#[test]
fn generation_options_enable_and_disable() {
    let mut options = GenerationOptions::default();
    assert!(!options.get(CompleteOption::NoSort));
    options.set(CompleteOption::NoSort, true);
    options.set(CompleteOption::NoSort, true);
    assert!(options.get(CompleteOption::NoSort));
    options.set(CompleteOption::NoSort, false);
    assert!(!options.get(CompleteOption::NoSort));
}
