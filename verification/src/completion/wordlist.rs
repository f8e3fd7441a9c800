//! The word list of `compgen -W`: split on the unquoted literal `IFS` chars, before each
//! word is expanded.

use vstd::prelude::*;

use super::quoting::{byte_at, lemma_byte_at_mono, lemma_byte_at_next, lemma_byte_at_strict, open_quote, open_quote_of, quote_char, text_width, width_of, char_width};
use super::words::texts;
use crate::error::{Error, ErrorKind};
use crate::text;

use brush_parser::word::WordPiece as Piece;

verus! {

/// The options the word parser runs with.
#[derive(Clone, Copy, Debug, PartialEq, Eq, Structural)]
pub struct WordParseOptions {
    /// Whether extended globbing (`extglob`) is enabled.
    pub enable_extended_globbing: bool,
    /// Whether POSIX compliance mode is enabled.
    pub posix_mode: bool,
    /// Whether maximal compatibility with `sh` is enabled.
    pub sh_mode: bool,
    /// Whether tildes at the start of words are expanded.
    pub tilde_expansion_at_word_start: bool,
    /// Whether tildes after colons are expanded.
    pub tilde_expansion_after_colon: bool,
}

/// The external type of the word parser's error.
#[verifier::external_type_specification]
#[verifier::external_body]
pub struct ExWordParseError(brush_parser::WordParseError);

/// The kind of a piece of a parsed word.
#[derive(Clone, Copy, Debug, PartialEq, Eq, Structural)]
pub enum PieceKind {
    /// Unquoted literal text.
    Text,
    /// Text in single quotes.
    SingleQuotedText,
    /// A backslash and the char it escapes.
    EscapeSequence,
    /// Any other piece, which needs the shell to expand: text in `$'...'` quotes, a
    /// sequence in double quotes (or `$"..."`), a tilde expression, or a parameter,
    /// command or arithmetic expansion.
    ShellExpansion,
}

/// The name of what `brush_parser::word::parse` gives for `word` under `options`: `None`
/// for an error, or else each piece of the word as its kind and the byte range of the
/// word it was parsed from.
pub uninterp spec fn parsed_word(word: Seq<char>, options: WordParseOptions) -> Option<Seq<(PieceKind, usize, usize)>>;

/// Parses `word` into its pieces (`brush_parser::word::parse`), each given as its kind and
/// its byte range in `word`. The contract names the result (see [`parsed_word`]); the
/// shell's word grammar itself is the parser's.
#[verifier::external_body]
pub(crate) fn parse_word(word: &str, options: &WordParseOptions) -> (r: Result<Vec<(PieceKind, usize, usize)>, brush_parser::WordParseError>)
    ensures
        match r {
            Ok(pieces) => parsed_word(word@, *options) == Some(pieces@),
            Err(_) => parsed_word(word@, *options) is None,
        },
{
    let o = brush_parser::ParserOptions { enable_extended_globbing: options.enable_extended_globbing, posix_mode: options.posix_mode, sh_mode: options.sh_mode, tilde_expansion_at_word_start: options.tilde_expansion_at_word_start, tilde_expansion_after_colon: options.tilde_expansion_after_colon, parser_impl: brush_parser::ParserImpl::default() };
    Ok(brush_parser::word::parse(word, &o)?.into_iter().map(|p| (match p.piece {
        Piece::Text(_) => PieceKind::Text,
        Piece::SingleQuotedText(_) => PieceKind::SingleQuotedText,
        Piece::EscapeSequence(_) => PieceKind::EscapeSequence,
        Piece::AnsiCQuotedText(_) | Piece::DoubleQuotedSequence(_) | Piece::GettextDoubleQuotedSequence(_) | Piece::TildeExpansion(_)
        | Piece::ParameterExpansion(_) | Piece::CommandSubstitution(_) | Piece::BackquotedCommandSubstitution(_)
        | Piece::ArithmeticExpression(_) => PieceKind::ShellExpansion,
    }, p.start_index, p.end_index)).collect())
}

/// Whether byte offset `b` of `s` falls on a char boundary (the end included).
pub open spec fn char_boundary(s: Seq<char>, b: int) -> bool {
    exists|k: int| 0 <= k <= s.len() && #[trigger] byte_at(s, k) == b
}

/// The position of the char that starts at byte offset `b` of `s`.
pub open spec fn char_index(s: Seq<char>, b: int) -> int {
    choose|k: int| 0 <= k <= s.len() && #[trigger] byte_at(s, k) == b
}

/// The chars of the bytes `start..end` of `s`, if both ends are char boundaries and the
/// range is not reversed.
pub open spec fn span_text(s: Seq<char>, start: int, end: int) -> Option<Seq<char>> {
    if char_boundary(s, start) && char_boundary(s, end) && start <= end {
        Some(s.subrange(char_index(s, start), char_index(s, end)))
    } else {
        None
    }
}

/// The words found so far, and the one being gathered.
#[verifier::ext_equal]
pub struct ListSplit {
    pub words: Seq<Seq<char>>,
    pub current: Seq<char>,
}

/// One char of plain text: a char of `ifs` ends the word being gathered, if it has any
/// chars; any other char joins it.
pub open spec fn split_char(st: ListSplit, c: char, ifs: Seq<char>) -> ListSplit {
    if ifs.contains(c) {
        if st.current.len() > 0 {
            ListSplit { words: st.words.push(st.current), current: Seq::empty() }
        } else {
            st
        }
    } else {
        ListSplit { words: st.words, current: st.current.push(c) }
    }
}

/// The chars `t` of plain text, in order.
pub open spec fn split_chars(st: ListSplit, t: Seq<char>, ifs: Seq<char>) -> ListSplit
    decreases t.len(),
{
    if t.len() == 0 {
        st
    } else {
        split_char(split_chars(st, t.drop_last(), ifs), t.last(), ifs)
    }
}

/// One parsed piece of the list `s`: plain text is split char by char; any other piece
/// (quoted text, an expansion) joins the word being gathered whole. A piece whose byte
/// range does not fit the list fails the split.
pub open spec fn split_span(st: Option<ListSplit>, s: Seq<char>, span: (PieceKind, usize, usize), ifs: Seq<char>) -> Option<ListSplit> {
    match st {
        None => None,
        Some(st) => match span_text(s, span.1 as int, span.2 as int) {
            None => None,
            Some(t) => Some(
                if span.0 == PieceKind::Text {
                    split_chars(st, t, ifs)
                } else {
                    ListSplit { words: st.words, current: st.current + t }
                },
            ),
        },
    }
}

/// The parsed pieces `spans` of the list `s`, in order.
pub open spec fn split_spans(s: Seq<char>, spans: Seq<(PieceKind, usize, usize)>, ifs: Seq<char>) -> Option<ListSplit>
    decreases spans.len(),
{
    if spans.len() == 0 {
        Some(ListSplit { words: Seq::empty(), current: Seq::empty() })
    } else {
        split_span(split_spans(s, spans.drop_last(), ifs), s, spans.last(), ifs)
    }
}

/// The words, the last one gathered included if it has any chars.
pub open spec fn finished(st: ListSplit) -> Seq<Seq<char>> {
    if st.current.len() > 0 {
        st.words.push(st.current)
    } else {
        st.words
    }
}

/// The list with a quote it leaves open closed at its end, as bash runs an open quote to
/// the end of the list.
pub open spec fn closed_list(word_list: Seq<char>) -> Seq<char> {
    match open_quote_of(word_list) {
        Some(q) => word_list.push(quote_char(q)),
        None => word_list,
    }
}

/// The words of the list `word_list` under `ifs` and `options`: `None` if the parser
/// fails on it or gives a piece that does not fit it.
pub open spec fn word_list_words(word_list: Seq<char>, ifs: Seq<char>, options: WordParseOptions) -> Option<Seq<Seq<char>>> {
    let s = closed_list(word_list);
    match parsed_word(s, options) {
        None => None,
        Some(spans) => match split_spans(s, spans, ifs) {
            None => None,
            Some(st) => Some(finished(st)),
        },
    }
}

proof fn lemma_byte_at_unique(s: Seq<char>, i: int, j: int)
    requires
        0 <= i <= s.len(),
        0 <= j <= s.len(),
        byte_at(s, i) == byte_at(s, j),
    ensures
        i == j,
{
    if i < j {
        lemma_byte_at_strict(s, i, j);
    } else if j < i {
        lemma_byte_at_strict(s, j, i);
    }
}

/// Returns the position of the char of `v` that starts at byte offset `b`, if `b` is a
/// char boundary of `v`.
pub(crate) fn char_index_at_byte(v: &Vec<char>, b: usize) -> (r: Option<usize>)
    requires
        text_width(v@) <= usize::MAX,
    ensures
        r is Some <==> char_boundary(v@, b as int),
        r matches Some(k) ==> k == char_index(v@, b as int) && k <= v@.len(),
{
    let ghost s = v@;
    let mut off: usize = 0;
    let mut k: usize = 0;
    assert(byte_at(s, 0) == 0) by {
        reveal(text_width);
        reveal(byte_at);
        assert(s.take(0).len() == 0);
    }
    while k < v.len()
        invariant
            s == v@,
            text_width(s) <= usize::MAX,
            k <= s.len(),
            off == byte_at(s, k as int),
            forall|i: int| 0 <= i < k ==> #[trigger] byte_at(s, i) != b,
        decreases s.len() - k,
    {
        if off == b {
            proof {
                lemma_byte_at_unique(s, k as int, char_index(s, b as int));
            }
            return Some(k);
        }
        let c = text::char_at(v, k);
        assert(byte_at(s, k + 1) == off + char_width(c) && byte_at(s, k + 1) <= text_width(s)) by {
            lemma_byte_at_next(s, k as int);
            lemma_byte_at_mono(s, k + 1, s.len() as int);
        }
        off = off + width_of(c);
        k = k + 1;
    }
    if off == b {
        proof {
            lemma_byte_at_unique(s, k as int, char_index(s, b as int));
        }
        Some(k)
    } else {
        None
    }
}

/// Splits the `compgen -W` word list `word_list` on the `ifs` chars in its unquoted plain
/// text, leaving quoted text and expansions whole (see [`word_list_words`]); a quote left
/// open runs to the end of the list.
pub fn split_completion_word_list(word_list: &str, ifs: &str, options: &WordParseOptions) -> (r: Result<Vec<String>, Error>)
    requires
        text_width(word_list@) + 1 <= usize::MAX,
    ensures
        r is Ok <==> word_list_words(word_list@, ifs@, *options) is Some,
        r matches Ok(words) ==> word_list_words(word_list@, ifs@, *options) == Some(texts(words@)),
        r matches Err(e) ==> match parsed_word(closed_list(word_list@), *options) {
            None => e.spec_kind() is WordParseError,
            Some(_) => e.spec_kind() is InternalError,
        },
{
    let mut list = word_list.to_owned();
    if let Some(q) = open_quote(word_list) {
        text::push_char(&mut list, q.as_char());
    }
    let ghost s = list@;
    assert(s == closed_list(word_list@));
    let spans = match parse_word(list.as_str(), options) {
        Ok(spans) => spans,
        Err(e) => return Err(Error::new(ErrorKind::WordParseError(e))),
    };
    let v = text::chars_of(list.as_str());
    assert(text_width(s) <= usize::MAX) by {
        reveal(text_width);
        match open_quote_of(word_list@) {
            Some(q) => {
                assert(s.drop_last() == word_list@);
                assert(s.last() == quote_char(q));
            },
            None => {},
        }
    }
    let mut words: Vec<String> = Vec::new();
    let mut current = String::new();
    let mut k: usize = 0;
    while k < spans.len()
        invariant
            v@ == s,
            s == closed_list(word_list@),
            parsed_word(s, *options) == Some(spans@),
            text_width(s) <= usize::MAX,
            k <= spans@.len(),
            split_spans(s, spans@.take(k as int), ifs@) == Some(ListSplit { words: texts(words@), current: current@ }),
        decreases spans@.len() - k,
    {
        let (kind, start, end) = spans[k];
        proof {
            assert(spans@.take(k + 1).drop_last() == spans@.take(k as int));
            assert(spans@.take(k + 1).last() == (kind, start, end));
        }
        let ci = char_index_at_byte(&v, start);
        let cj = char_index_at_byte(&v, end);
        if ci.is_none() || cj.is_none() || start > end {
            proof {
                assert(span_text(s, start as int, end as int) is None);
                lemma_split_spans_fails_after(s, spans@, ifs@, k + 1);
            }
            return Err(Error::new(ErrorKind::InternalError(String::from_str("word parser returned an invalid source span"))));
        }
        let ci = ci.unwrap();
        let cj = cj.unwrap();
        proof {
            if cj < ci {
                lemma_byte_at_strict(s, cj as int, ci as int);
            }
        }
        let ghost t = s.subrange(ci as int, cj as int);
        assert(span_text(s, start as int, end as int) == Some(t));
        if kind == PieceKind::Text {
            let ghost st0 = ListSplit { words: texts(words@), current: current@ };
            let mut i = ci;
            proof {
                assert(t.take(0) =~= Seq::<char>::empty());
            }
            while i < cj
                invariant
                    v@ == s,
                    ci <= i <= cj <= s.len(),
                    t == s.subrange(ci as int, cj as int),
                    split_chars(st0, t.take(i - ci), ifs@) == (ListSplit { words: texts(words@), current: current@ }),
                decreases cj - i,
            {
                let c = text::char_at(&v, i);
                proof {
                    assert(t.take(i + 1 - ci).drop_last() == t.take(i - ci));
                    assert(t.take(i + 1 - ci).last() == c);
                }
                if text::str_contains_char(ifs, c) {
                    if !current.as_str().is_empty() {
                        let done = current;
                        current = String::new();
                        proof {
                            assert(texts(words@.push(done)) =~= texts(words@).push(done@));
                        }
                        words.push(done);
                    }
                } else {
                    text::push_char(&mut current, c);
                }
                i = i + 1;
            }
            proof {
                assert(t.take(cj - ci) == t);
            }
        } else {
            let piece = text::string_of(&v, ci, cj);
            text::push_str(&mut current, piece.as_str());
        }
        k = k + 1;
    }
    proof {
        assert(spans@.take(spans@.len() as int) == spans@);
    }
    if !current.as_str().is_empty() {
        proof {
            assert(texts(words@.push(current)) =~= texts(words@).push(current@));
        }
        words.push(current);
    }
    Ok(words)
}

proof fn lemma_split_spans_fails_after(s: Seq<char>, spans: Seq<(PieceKind, usize, usize)>, ifs: Seq<char>, k: int)
    requires
        0 < k <= spans.len(),
        split_spans(s, spans.take(k), ifs) is None,
    ensures
        split_spans(s, spans, ifs) is None,
    decreases spans.len() - k,
{
    if k < spans.len() {
        assert(spans.take(k + 1).drop_last() == spans.take(k));
        lemma_split_spans_fails_after(s, spans, ifs, k + 1);
    } else {
        assert(spans.take(k) == spans);
    }
}

} // verus!
