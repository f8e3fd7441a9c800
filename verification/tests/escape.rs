use brush_core::escape::{
    expand_backslash_escapes, force_quote, needs_quoting, quote_if_needed, EscapeExpansionMode,
    QuoteMode,
};

#[test]
fn test_backslash_escape() {
    assert_eq!(quote_if_needed("a", QuoteMode::BackslashEscape), "a");
    assert_eq!(quote_if_needed("a b", QuoteMode::BackslashEscape), r"a\ b");
    assert_eq!(quote_if_needed("", QuoteMode::BackslashEscape), "");
}

#[test]
fn test_single_quote_escape() {
    assert_eq!(quote_if_needed("a", QuoteMode::SingleQuote), "a");
    assert_eq!(quote_if_needed("a b", QuoteMode::SingleQuote), "'a b'");
    assert_eq!(quote_if_needed("", QuoteMode::SingleQuote), "''");
    assert_eq!(quote_if_needed("'", QuoteMode::SingleQuote), "\\'");
}

fn assert_echo_expands_to(unexpanded: &str, expected: &str) {
    assert_eq!(
        String::from_utf8(
            expand_backslash_escapes(unexpanded, EscapeExpansionMode::EchoBuiltin)
                .unwrap()
                .0
        )
        .unwrap(),
        expected
    );
}

#[test]
fn test_echo_expansion() {
    assert_echo_expands_to("a", "a");
    assert_echo_expands_to(r"\M", "\\M");
    assert_echo_expands_to(r"a\nb", "a\nb");
    assert_echo_expands_to(r"\a", "\x07");
    assert_echo_expands_to(r"\b", "\x08");
    assert_echo_expands_to(r"\e", "\x1b");
    assert_echo_expands_to(r"\f", "\x0c");
    assert_echo_expands_to(r"\n", "\n");
    assert_echo_expands_to(r"\r", "\r");
    assert_echo_expands_to(r"\t", "\t");
    assert_echo_expands_to(r"\v", "\x0b");
    assert_echo_expands_to(r"\\", "\\");
    assert_echo_expands_to(r"\'", "\\'");
    assert_echo_expands_to(r#"\""#, r#"\""#);
    assert_echo_expands_to(r"\?", "\\?");
    assert_echo_expands_to(r"\0", "\0");
    assert_echo_expands_to(r"\00", "\0");
    assert_echo_expands_to(r"\000", "\0");
    assert_echo_expands_to(r"\081", "\081");
    assert_echo_expands_to(r"\0101", "A");
    assert_echo_expands_to(r"abc\", "abc\\");
    assert_echo_expands_to(r"\x41", "A");
    assert_echo_expands_to(r"\xf0\x9f\x90\x8d", "🐍");
    assert_echo_expands_to(r"\u2620", "☠");
    assert_echo_expands_to(r"\U0001f602", "😂");
}

#[test]
fn echo_stops_at_backslash_c() {
    let (bytes, more) = expand_backslash_escapes(r"ab\cde", EscapeExpansionMode::EchoBuiltin).unwrap();
    assert_eq!(bytes, b"ab".to_vec());
    assert!(!more);
}

#[test]
fn ansi_c_control_escape_is_unsupported_before_more_text() {
    assert!(expand_backslash_escapes(r"\cx", EscapeExpansionMode::AnsiCQuotes).is_err());
    let (bytes, more) = expand_backslash_escapes(r"\c", EscapeExpansionMode::AnsiCQuotes).unwrap();
    assert_eq!(bytes, b"\\c".to_vec());
    assert!(more);
}

#[test]
fn ansi_c_quotes_expand_quotes() {
    let (bytes, _) = expand_backslash_escapes(r#"\'\"\?"#, EscapeExpansionMode::AnsiCQuotes).unwrap();
    assert_eq!(bytes, b"'\"?".to_vec());
}

#[test]
fn octal_escape_over_a_byte_is_an_error() {
    assert!(expand_backslash_escapes(r"\0777", EscapeExpansionMode::EchoBuiltin).is_err());
    let (bytes, _) = expand_backslash_escapes(r"\0377", EscapeExpansionMode::EchoBuiltin).unwrap();
    assert_eq!(bytes, vec![0xffu8]);
}

#[test]
fn hex_escape_without_digits_doubles_the_backslash() {
    let (bytes, _) = expand_backslash_escapes(r"\xg", EscapeExpansionMode::EchoBuiltin).unwrap();
    assert_eq!(bytes, b"\\\\g".to_vec());
}

#[test]
fn quoting_modes() {
    assert_eq!(force_quote("a", QuoteMode::DoubleQuote), "\"a\"");
    assert_eq!(force_quote("a$b", QuoteMode::DoubleQuote), "\"a\\$b\"");
    assert_eq!(force_quote("it's", QuoteMode::SingleQuote), r"'it'\''s'");
    assert_eq!(quote_if_needed("a\nb", QuoteMode::SingleQuote), r"$'a\nb'");
    assert_eq!(quote_if_needed("\x01", QuoteMode::SingleQuote), r"$'\001'");
    assert!(needs_quoting(""));
    assert!(needs_quoting("a b"));
    assert!(!needs_quoting("plain"));
}

/// The shell's quote removal for a word, as a test oracle.
fn remove_quotes(t: &str) -> String {
    let mut out = String::new();
    let mut chars = t.chars().peekable();
    let mut state = 'u';
    while let Some(c) = chars.next() {
        match state {
            'u' => match c {
                '\\' => {
                    if let Some(n) = chars.next() {
                        if n != '\n' {
                            out.push(n);
                        }
                    }
                }
                '\'' => state = 's',
                '"' => state = 'd',
                _ => out.push(c),
            },
            's' => {
                if c == '\'' {
                    state = 'u';
                } else {
                    out.push(c);
                }
            }
            _ => match c {
                '"' => state = 'u',
                '\\' => match chars.peek() {
                    Some(&n) if matches!(n, '$' | '`' | '"' | '\\') => {
                        out.push(n);
                        chars.next();
                    }
                    Some(&'\n') => {
                        chars.next();
                    }
                    _ => out.push('\\'),
                },
                _ => out.push(c),
            },
        }
    }
    out
}

#[test]
fn quote_removal_undoes_each_quoting_mode() {
    for text in ["", "plain", "a b", "it's", "$HOME \"q\" `x` \\", "'''", "semi;colon&amp"] {
        for mode in [QuoteMode::BackslashEscape, QuoteMode::SingleQuote, QuoteMode::DoubleQuote] {
            let quoted = force_quote(text, mode);
            assert_eq!(remove_quotes(&quoted), text, "{mode:?} quoting of {text:?} gave {quoted:?}");
        }
    }
}

#[test]
fn echo_c_ends_output() {
    let (bytes, more) = expand_backslash_escapes("héllo\\cworld\\n", EscapeExpansionMode::EchoBuiltin).unwrap();
    assert_eq!(bytes, "héllo".as_bytes().to_vec());
    assert!(!more);
    let (bytes, more) = expand_backslash_escapes("\\c", EscapeExpansionMode::EchoBuiltin).unwrap();
    assert!(bytes.is_empty());
    assert!(!more);
}
