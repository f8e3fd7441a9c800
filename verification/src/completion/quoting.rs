//! Completion's quoting model, which follows readline's: finding the quote a line leaves
//! open, dequoting the word being completed, and quoting candidates to replace it, as bash
//! quotes them for readline.
//!
//! A file name that names its file only once a leading `~user/` or parameters in it
//! expand is quoted so that it keeps expanding: unquoted, a leading `~user/` is left as is
//! and the rest is double-quoted if it has parameters (backslash-quoted otherwise); in a
//! quote, where a `~` cannot expand, a name starting with one is replaced with what it
//! expands to. The chars left to expand (`$`, `{`, `}`, `(`, `)`, `` ` ``) don't count
//! toward needing quoting.

use vstd::prelude::*;

use super::files::{self, tilde_len, without_trailing_separator};
use super::{CandidateKind, ResolvedCandidate};
use crate::escape::{self, QuoteMode, QuoteOptions};
use crate::text;

verus! {

/// A quote left open where a word is being completed. Like readline, completion only
/// tracks single and double quotes.
#[derive(Clone, Copy, Debug, Eq, Hash, PartialEq, Structural)]
pub enum Quote {
    /// A single quote (`'`).
    Single,
    /// A double quote (`"`).
    Double,
}

/// The char of a quote.
pub open spec fn quote_char(q: Quote) -> char {
    match q {
        Quote::Single => '\'',
        Quote::Double => '"',
    }
}

/// The quote that `c` opens, if it's a quote char.
pub open spec fn quote_of(c: char) -> Option<Quote> {
    if c == '\'' {
        Some(Quote::Single)
    } else if c == '"' {
        Some(Quote::Double)
    } else {
        None
    }
}

/// The quoting mode that quotes text in a quote.
pub open spec fn mode_of(q: Quote) -> QuoteMode {
    match q {
        Quote::Single => QuoteMode::SingleQuote,
        Quote::Double => QuoteMode::DoubleQuote,
    }
}

impl Quote {
    /// Returns the quote that `c` opens, if it's a quote char.
    pub fn from_char(c: char) -> (r: Option<Self>)
        ensures
            r == quote_of(c),
    {
        if c == '\'' {
            Some(Quote::Single)
        } else if c == '"' {
            Some(Quote::Double)
        } else {
            None
        }
    }

    /// Returns the quote's char.
    pub fn as_char(self) -> (c: char)
        ensures
            c == quote_char(self),
    {
        match self {
            Quote::Single => '\'',
            Quote::Double => '"',
        }
    }
}

impl From<Quote> for QuoteMode {
    fn from(quote: Quote) -> (m: Self) {
        match quote {
            Quote::Single => QuoteMode::SingleQuote,
            Quote::Double => QuoteMode::DoubleQuote,
        }
    }
}

impl vstd::std_specs::convert::FromSpecImpl<Quote> for QuoteMode {
    open spec fn obeys_from_spec() -> bool {
        true
    }

    open spec fn from_spec(v: Quote) -> Self {
        mode_of(v)
    }
}

/// How a word that file names are generated for is quoted, which says how to dequote it.
#[derive(Clone, Copy, Debug)]
pub struct WordQuoting {
    /// The quote the word being completed is in, if the cursor is inside an unclosed quote.
    pub quote: Option<Quote>,
    /// Whether to dequote the word: if anything in the line before the cursor is quoted.
    pub dequote: bool,
    /// Whether to dequote the word once more first, taking it as quoted by the caller.
    pub dequote_again: bool,
}

impl Default for WordQuoting {
    fn default() -> (r: Self)
        ensures
            r.quote is None,
            !r.dequote,
            !r.dequote_again,
    {
        WordQuoting { quote: None, dequote: false, dequote_again: false }
    }
}

/// How many bytes `c` takes in UTF-8.
pub open spec fn char_width(c: char) -> nat {
    if c <= '\u{7f}' {
        1
    } else if c <= '\u{7ff}' {
        2
    } else if c <= '\u{ffff}' {
        3
    } else {
        4
    }
}

/// How many bytes `s` takes in UTF-8.
#[verifier::opaque]
pub open spec fn text_width(s: Seq<char>) -> nat
    decreases s.len(),
{
    if s.len() == 0 {
        0
    } else {
        text_width(s.drop_last()) + char_width(s.last())
    }
}

/// The byte offset of the `i`-th char of `s`.
#[verifier::opaque]
pub open spec fn byte_at(s: Seq<char>, i: int) -> nat {
    text_width(s.take(i))
}

/// The byte offset of the `i+1`-th char is the `i`-th's plus its width.
pub proof fn lemma_byte_at_next(s: Seq<char>, i: int)
    requires
        0 <= i < s.len(),
    ensures
        byte_at(s, i + 1) == byte_at(s, i) + char_width(s[i]),
{
    reveal(text_width);
    reveal(byte_at);
    assert(s.take(i + 1).drop_last() == s.take(i));
}

/// Byte offsets grow with the char position.
pub proof fn lemma_byte_at_mono(s: Seq<char>, i: int, j: int)
    requires
        0 <= i <= j <= s.len(),
    ensures
        byte_at(s, i) <= byte_at(s, j),
        byte_at(s, j) <= text_width(s),
    decreases s.len() - i,
{
    if i < j {
        lemma_byte_at_next(s, i);
        lemma_byte_at_mono(s, i + 1, j);
    } else if j < s.len() {
        lemma_byte_at_next(s, j);
        lemma_byte_at_mono(s, j + 1, j + 1);
    } else {
        reveal(byte_at);
        assert(s.take(j) == s);
    }
}

/// Byte offsets strictly grow with the char position.
pub proof fn lemma_byte_at_strict(s: Seq<char>, i: int, j: int)
    requires
        0 <= i < j <= s.len(),
    ensures
        byte_at(s, i) < byte_at(s, j),
{
    lemma_byte_at_next(s, i);
    lemma_byte_at_mono(s, i + 1, j);
}

/// Returns how many bytes `c` takes in UTF-8.
pub fn width_of(c: char) -> (r: usize)
    ensures
        r == char_width(c),
{
    if c <= '\u{7f}' {
        1
    } else if c <= '\u{7ff}' {
        2
    } else if c <= '\u{ffff}' {
        3
    } else {
        4
    }
}

/// Returns how many bytes `s` takes in UTF-8 (what `str::len` gives).
pub fn text_len(s: &str) -> (r: usize)
    requires
        text_width(s@) <= usize::MAX,
    ensures
        r == text_width(s@),
{
    let v = text::chars_of(s);
    let mut n: usize = 0;
    let mut k: usize = 0;
    assert(byte_at(s@, 0) == 0) by {
        reveal(text_width);
        reveal(byte_at);
        assert(s@.take(0).len() == 0);
    }
    while k < v.len()
        invariant
            v@ == s@,
            text_width(s@) <= usize::MAX,
            k <= v@.len(),
            n == byte_at(s@, k as int),
        decreases v@.len() - k,
    {
        let c = text::char_at(&v, k);
        assert(byte_at(s@, k + 1) == n + char_width(c) && byte_at(s@, k + 1) <= text_width(s@)) by {
            lemma_byte_at_next(s@, k as int);
            lemma_byte_at_mono(s@, k + 1, s@.len() as int);
        }
        n = n + width_of(c);
        k = k + 1;
    }
    assert(byte_at(s@, s@.len() as int) == text_width(s@)) by {
        reveal(byte_at);
        assert(s@.take(s@.len() as int) == s@);
    }
    n
}

/// One step of readline's quoting scan: the state after a char `c` at position `pos`,
/// from the state before it (the quote left open, with where it opened, and whether the
/// char is escaped). Quotes and backslash escapes protect the chars they quote; unlike
/// the shell's, a backslash escapes any char in double quotes.
pub open spec fn scan_step(prev: (Option<(int, Quote)>, bool), c: char, pos: int) -> (Option<(int, Quote)>, bool) {
    if prev.1 {
        (prev.0, false)
    } else {
        match prev.0 {
            Some((p, q)) => if c == '\\' && q == Quote::Double {
                (prev.0, true)
            } else if c == quote_char(q) {
                (None, false)
            } else {
                (prev.0, false)
            },
            None => if c == '\\' {
                (None, true)
            } else {
                match quote_of(c) {
                    Some(q) => (Some((pos, q)), false),
                    None => (None, false),
                }
            },
        }
    }
}

/// Whether a char `c` scanned in state `prev` is unquoted and quotes nothing itself.
pub open spec fn unquoted_in(prev: (Option<(int, Quote)>, bool), c: char) -> bool {
    !prev.1 && prev.0 is None && c != '\\' && quote_of(c) is None
}

/// The scan state after the first `n` chars of `s`.
#[verifier::opaque]
pub open spec fn scan_state(s: Seq<char>, n: int) -> (Option<(int, Quote)>, bool)
    decreases n,
{
    if n <= 0 {
        (None, false)
    } else {
        scan_step(scan_state(s, n - 1), s[n - 1], n - 1)
    }
}

/// Whether the `i`-th char of `s` is unquoted and quotes nothing itself (as a quote char
/// or a backslash does): only such a char can break words.
pub open spec fn is_unquoted(s: Seq<char>, i: int) -> bool {
    unquoted_in(scan_state(s, i), s[i])
}

/// A quote left open with its char position, with the position as a byte offset.
pub open spec fn open_in_bytes(s: Seq<char>, o: Option<(int, Quote)>) -> Option<(int, Quote)> {
    match o {
        Some((p, q)) => Some((byte_at(s, p) as int, q)),
        None => None,
    }
}

/// An open quote with its byte offset, as values.
pub open spec fn open_view(o: Option<(usize, Quote)>) -> Option<(int, Quote)> {
    match o {
        Some((b, q)) => Some((b as int, q)),
        None => None,
    }
}

/// The quote that `s` leaves open at its end, if any.
pub open spec fn open_quote_of(s: Seq<char>) -> Option<Quote> {
    match scan_state(s, s.len() as int).0 {
        Some((_, q)) => Some(q),
        None => None,
    }
}

/// A char of a line, as quoting affects it (see [`scan`]).
pub struct ScannedChar {
    /// The byte offset of the char.
    pub index: usize,
    /// The char.
    pub c: char,
    /// Whether the char is unquoted, and doesn't quote anything itself: only such a char
    /// can break words.
    pub unquoted: bool,
    /// The quote left open after this char, if any, and its byte offset.
    pub open_quote: Option<(usize, Quote)>,
}

/// The `i`-th char of `s` scanned.
pub open spec fn scanned_at(s: Seq<char>, i: int, sc: ScannedChar) -> bool {
    &&& sc.c == s[i]
    &&& sc.index == byte_at(s, i)
    &&& sc.unquoted == is_unquoted(s, i)
    &&& open_view(sc.open_quote) == open_in_bytes(s, scan_state(s, i + 1).0)
}

/// Scanning in byte offsets is scanning in char positions, with each position taken to
/// its byte offset.
proof fn lemma_scan_in_bytes(s: Seq<char>, i: int)
    requires
        0 <= i < s.len(),
    ensures
        open_in_bytes(s, scan_state(s, i + 1).0)
            == scan_step((open_in_bytes(s, scan_state(s, i).0), scan_state(s, i).1), s[i], byte_at(s, i) as int).0,
        scan_state(s, i + 1).1 == scan_step((open_in_bytes(s, scan_state(s, i).0), scan_state(s, i).1), s[i], byte_at(s, i) as int).1,
        is_unquoted(s, i) == unquoted_in((open_in_bytes(s, scan_state(s, i).0), scan_state(s, i).1), s[i]),
{
    reveal(scan_state);
}

/// Scans one char `c` at byte offset `index`, in the state the chars before it left.
fn scan_char(c: char, open_quote: Option<(usize, Quote)>, escaped: bool, index: usize) -> (r: (bool, Option<(usize, Quote)>, bool))
    ensures
        r.0 == unquoted_in((open_view(open_quote), escaped), c),
        open_view(r.1) == scan_step((open_view(open_quote), escaped), c, index as int).0,
        r.2 == scan_step((open_view(open_quote), escaped), c, index as int).1,
{
    if escaped {
        (false, open_quote, false)
    } else if let Some((_, q)) = open_quote {
        if c == '\\' && q == Quote::Double {
            (false, open_quote, true)
        } else if c == q.as_char() {
            (false, None, false)
        } else {
            (false, open_quote, false)
        }
    } else if c == '\\' {
        (false, None, true)
    } else if let Some(q) = Quote::from_char(c) {
        (false, Some((index, q)), false)
    } else {
        (true, None, false)
    }
}

/// Scans `input` for quoting, like readline: each char with its byte offset, whether it
/// is unquoted, and the quote left open after it.
#[verifier::spinoff_prover]
#[verifier::rlimit(80)]
pub fn scan(input: &str) -> (r: Vec<ScannedChar>)
    requires
        text_width(input@) <= usize::MAX,
    ensures
        r@.len() == input@.len(),
        forall|i: int| 0 <= i < input@.len() ==> scanned_at(input@, i, #[trigger] r@[i]),
{
    let ghost s = input@;
    let v = text::chars_of(input);
    let mut out: Vec<ScannedChar> = Vec::new();
    let mut open: Option<(usize, Quote)> = None;
    let mut escaped = false;
    let mut index: usize = 0;
    let mut k: usize = 0;
    assert(byte_at(s, 0) == 0 && scan_state(s, 0) == (None::<(int, Quote)>, false)) by {
        reveal(text_width);
        reveal(byte_at);
        reveal(scan_state);
        assert(s.take(0).len() == 0);
    }
    while k < v.len()
        invariant
            v@ == s,
            s == input@,
            text_width(s) <= usize::MAX,
            k <= s.len(),
            out@.len() == k,
            index == byte_at(s, k as int),
            open_view(open) == open_in_bytes(s, scan_state(s, k as int).0),
            escaped == scan_state(s, k as int).1,
            forall|i: int| 0 <= i < k ==> scanned_at(s, i, #[trigger] out@[i]),
        decreases s.len() - k,
    {
        let c = text::char_at(&v, k);
        assert(byte_at(s, k + 1) == index + char_width(c) && byte_at(s, k + 1) <= text_width(s)) by {
            lemma_byte_at_next(s, k as int);
            lemma_byte_at_mono(s, k + 1, s.len() as int);
        }
        let (free, next_open, next_escaped) = scan_char(c, open, escaped, index);
        let sc = ScannedChar { index, c, unquoted: free, open_quote: next_open };
        assert(scanned_at(s, k as int, sc) && open_view(next_open) == open_in_bytes(s, scan_state(s, k + 1).0)
            && next_escaped == scan_state(s, k + 1).1) by {
            lemma_scan_in_bytes(s, k as int);
        }
        open = next_open;
        escaped = next_escaped;
        out.push(sc);
        index = index + width_of(c);
        k = k + 1;
    }
    out
}

/// Returns the quote left open at the end of `text`, if any.
pub fn open_quote(text: &str) -> (r: Option<Quote>)
    requires
        text_width(text@) <= usize::MAX,
    ensures
        r == open_quote_of(text@),
{
    let scanned = scan(text);
    if scanned.len() == 0 {
        assert(open_quote_of(text@) is None) by {
            reveal(scan_state);
        }
        return None;
    }
    let last = &scanned[scanned.len() - 1];
    proof {
        assert(scanned_at(text@, text@.len() - 1, scanned@[text@.len() - 1]));
    }
    match last.open_quote {
        Some((_, q)) => Some(q),
        None => None,
    }
}

/// Whether `c` quotes something: a backslash or a quote char.
pub open spec fn is_quoting_char(c: char) -> bool {
    c == '\\' || c == '\'' || c == '"'
}

/// Returns whether `text` has any quoting: any backslash or quote char.
pub fn has_quoting(text: &str) -> (r: bool)
    ensures
        r == exists|i: int| 0 <= i < text@.len() && is_quoting_char(#[trigger] text@[i]),
{
    for c in it: text.chars()
        invariant
            it.seq() == text@,
            forall|j: int| 0 <= j < it.index() ==> !is_quoting_char(#[trigger] text@[j]),
    {
        if c == '\\' || c == '\'' || c == '"' {
            proof {
                assert(is_quoting_char(text@[it.index() as int]));
            }
            return true;
        }
    }
    false
}

/// `s` with its quoting removed, as `brush_parser::unquote_str` removes it: a backslash
/// keeps the char after it and is dropped, and other quote chars are dropped.
pub open spec fn unquoted(s: Seq<char>) -> Seq<char>
    decreases s.len(),
{
    if s.len() == 0 {
        Seq::empty()
    } else if s[0] == '\\' {
        if s.len() == 1 {
            Seq::empty()
        } else {
            seq![s[1]] + unquoted(s.skip(2))
        }
    } else if s[0] == '\'' || s[0] == '"' {
        unquoted(s.drop_first())
    } else {
        seq![s[0]] + unquoted(s.drop_first())
    }
}

/// Removes quoting from `s` (`brush_parser::unquote_str`): the contract claims that each
/// backslash is dropped and keeps the char after it as is, and that each other `'` or `"`
/// is dropped, as the function's source in brush-parser 0.4.0 does.
#[verifier::external_body]
pub fn unquote_str(s: &str) -> (r: String)
    ensures
        r@ == unquoted(s@),
{
    brush_parser::unquote_str(s)
}

/// `text` dequoted, as if it followed `open_quote`.
pub open spec fn unquoted_in_quote(text: Seq<char>, open_quote: Option<Quote>) -> Seq<char> {
    match open_quote {
        Some(q) => unquoted(seq![quote_char(q)] + text),
        None => unquoted(text),
    }
}

/// Dequotes `text`, which starts in `open_quote` if given (e.g. the rest of a word after its
/// opening quote).
pub fn unquote_in_quote(text: &str, open_quote: Option<Quote>) -> (r: String)
    ensures
        r@ == unquoted_in_quote(text@, open_quote),
{
    match open_quote {
        Some(q) => {
            let mut quoted = String::new();
            text::push_char(&mut quoted, q.as_char());
            text::push_str(&mut quoted, text);
            unquote_str(quoted.as_str())
        },
        None => unquote_str(text),
    }
}

/// `word` without one leading quote char.
pub open spec fn without_leading_quote(word: Seq<char>) -> Seq<char> {
    if word.len() > 0 && (word[0] == '\'' || word[0] == '"') {
        word.drop_first()
    } else {
        word
    }
}

/// Dequotes `word` to match it against a list of names, like bash: a leading quote is
/// dropped as if it closed a quote, so a quote char after it opens one.
pub fn dequote_for_matching(word: &str) -> (r: String)
    ensures
        r@ == unquoted(without_leading_quote(word@)),
{
    let v = text::chars_of(word);
    if v.len() > 0 && (v[0] == '\'' || v[0] == '"') {
        let rest = text::string_of(&v, 1, v.len());
        proof {
            assert(v@.subrange(1, v@.len() as int) == word@.drop_first());
        }
        unquote_str(rest.as_str())
    } else {
        unquote_str(word)
    }
}


/// Whether `c` is left to expand in a file name that expands: `$`, `{`, `}`, `(`, `)`, or
/// `` ` ``.
pub open spec fn is_expansion_char(c: char) -> bool {
    c == '$' || c == '{' || c == '}' || c == '(' || c == ')' || c == '`'
}

/// `s` without the chars left to expand.
pub open spec fn without_expansion_chars(s: Seq<char>) -> Seq<char>
    decreases s.len(),
{
    if s.len() == 0 {
        Seq::empty()
    } else if is_expansion_char(s.last()) {
        without_expansion_chars(s.drop_last())
    } else {
        without_expansion_chars(s.drop_last()).push(s.last())
    }
}

/// The mode that quotes a file name in `open_quote`: that quote, or backslashes if none.
pub open spec fn file_name_mode(open_quote: Option<Quote>) -> QuoteMode {
    match open_quote {
        Some(q) => mode_of(q),
        None => QuoteMode::BackslashEscape,
    }
}

/// `name`, a file name, quoted in full if it needs quoting in `open_quote`: in that quote,
/// or with backslashes if there's none; `None` if it doesn't need quoting. If it
/// `expands`, a leading `~user/` is left as is (and a bare one needs no quoting), and if
/// the rest has parameters, the chars left to expand don't count toward needing quoting
/// and, but in single quotes, the rest is double-quoted leaving `$` and `` ` `` to expand.
pub open spec fn file_name_quoted(name: Seq<char>, expands: bool, open_quote: Option<Quote>) -> Option<Seq<char>> {
    let t = if expands { tilde_len(name) } else { 0 };
    let tilde = name.take(t);
    let rest = name.skip(t);
    let params_expand = expands && (rest.contains('$') || rest.contains('`'));
    let needs = if params_expand {
        escape::text_needs_quoting(without_expansion_chars(rest))
    } else {
        escape::text_needs_quoting(rest)
    };
    if expands && rest.len() == 0 {
        None
    } else if !needs {
        None
    } else if params_expand && open_quote != Some(Quote::Single) {
        Some(tilde + escape::double_quoted_leaving(rest, seq!['$', '`']))
    } else {
        Some(tilde + escape::quoted(rest, QuoteOptions {
            always_quote: true,
            preferred_mode: file_name_mode(open_quote),
            avoid_ansi_c_quoting_newline: false,
        }))
    }
}

/// Returns `s` without the chars left to expand.
fn remove_expansion_chars(s: &str) -> (r: String)
    ensures
        r@ == without_expansion_chars(s@),
{
    let mut r = String::new();
    for c in it: s.chars()
        invariant
            it.seq() == s@,
            r@ == without_expansion_chars(s@.take(it.index() as int)),
    {
        proof {
            assert(s@.take(it.index() + 1).drop_last() == s@.take(it.index() as int));
        }
        if !(c == '$' || c == '{' || c == '}' || c == '(' || c == ')' || c == '`') {
            text::push_char(&mut r, c);
        }
    }
    proof {
        assert(s@.take(s@.len() as int) == s@);
    }
    r
}

/// Quotes `name`, a file name, if it needs quoting in `open_quote`; see
/// [`file_name_quoted`].
fn quote_file_name(name: &str, expands: bool, open_quote: Option<Quote>) -> (r: Option<String>)
    ensures
        super::opt_text(r) == file_name_quoted(name@, expands, open_quote),
{
    let (tilde, rest) = if expands {
        files::split_tilde_prefix(name)
    } else {
        (name.substring_char(0, 0), name)
    };
    proof {
        assert(name@.take(0) == Seq::<char>::empty());
        assert(name@.skip(0) == name@);
    }
    if expands && rest.is_empty() {
        return None;
    }
    let params_expand = expands && (text::str_contains_char(rest, '$') || text::str_contains_char(rest, '`'));
    let needs = if params_expand {
        let live = remove_expansion_chars(rest);
        escape::needs_quoting(live.as_str())
    } else {
        escape::needs_quoting(rest)
    };
    if !needs {
        return None;
    }
    let quoted = if params_expand && open_quote != Some(Quote::Single) {
        let leave: [char; 2] = ['$', '`'];
        proof {
            assert(leave@ == seq!['$', '`']);
        }
        escape::double_quote_leaving(rest, leave.as_slice())
    } else {
        let mode = match open_quote {
            Some(Quote::Single) => QuoteMode::SingleQuote,
            Some(Quote::Double) => QuoteMode::DoubleQuote,
            None => QuoteMode::BackslashEscape,
        };
        escape::force_quote(rest, mode)
    };
    let mut r = String::new();
    text::push_str(&mut r, tilde);
    text::push_str(&mut r, quoted.as_str());
    Some(r)
}

/// `s` without one trailing `c`.
pub open spec fn without_trailing(s: Seq<char>, c: char) -> Seq<char> {
    if s.len() > 0 && s.last() == c {
        s.drop_last()
    } else {
        s
    }
}

/// The slash that marks a directory after a quoted file name: the candidate's own
/// trailing one, or one added to mark it.
pub open spec fn slash_for(text: Seq<char>, add_slash: bool) -> Seq<char> {
    if (text.len() > 0 && text.last() == '/') || add_slash {
        seq!['/']
    } else {
        Seq::empty()
    }
}

/// The file name to quote for a candidate, and whether it expands: in a quote, where a
/// `~` can't expand, a name starting with one is replaced with what it expands to.
pub open spec fn name_to_quote(open_quote: Option<Quote>, c: super::CandidateView) -> (Seq<char>, bool) {
    let name = without_trailing_separator(c.text);
    match c.expanded {
        Some(e) => if open_quote is Some && name.len() > 0 && name[0] == '~' {
            (without_trailing_separator(e), false)
        } else {
            (name, true)
        },
        None => (name, false),
    }
}

/// A candidate quoted to replace the word being completed (see [`Quoter::quote`]): its
/// text, starting with the word's quote and leaving it open, and, if it needed quoting in
/// that quote, the text with the quote closed before any trailing `/`.
pub open spec fn quoted_candidate(
    open_quote: Option<Quote>,
    quote_file_names: bool,
    c: super::CandidateView,
    add_slash: bool,
) -> (Seq<char>, Option<Seq<char>>) {
    match c.kind {
        CandidateKind::FileName { .. } => {
            let (name, expands) = name_to_quote(open_quote, c);
            let slash = slash_for(c.text, add_slash);
            let quoted = if quote_file_names { file_name_quoted(name, expands, open_quote) } else { None };
            match open_quote {
                None => (
                    match quoted {
                        Some(t) => t,
                        None => name,
                    } + slash,
                    None,
                ),
                Some(q) => match quoted {
                    Some(closed) => (without_trailing(closed, quote_char(q)) + slash, Some(closed + slash)),
                    None => (seq![quote_char(q)] + name + slash, None),
                },
            }
        },
        CandidateKind::Other => (
            match open_quote {
                Some(q) => seq![quote_char(q)] + c.text,
                None => c.text,
            },
            None,
        ),
    }
}

/// A candidate quoted to replace the word being completed.
#[derive(Clone, Debug, Eq, PartialEq)]
pub struct QuotedCandidate {
    /// The candidate, quoted as needed, starting with the quote the word is in (if any)
    /// and leaving that quote open: e.g. `"dir with space/`.
    pub text: String,
    /// If the candidate needed quoting in the quote the word is in, the candidate with that
    /// quote closed, before any trailing `/`: e.g. `"dir with space"/`.
    pub closed: Option<String>,
}

impl QuotedCandidate {
    /// The quoted candidate as values.
    pub open spec fn view(&self) -> (Seq<char>, Option<Seq<char>>) {
        (self.text@, super::opt_text(self.closed))
    }
}

/// Quotes candidates to replace the word being completed, as bash quotes them for readline.
pub struct Quoter {
    /// The quote the word being completed is in, if any.
    pub open_quote: Option<Quote>,
    /// Whether to quote candidates that are file names: unless the spec said not to.
    pub quote_file_names: bool,
}

/// Returns `s` without one trailing `c`.
fn strip_trailing(s: &str, c: char) -> (r: String)
    ensures
        r@ == without_trailing(s@, c),
{
    let v = text::chars_of(s);
    if v.len() > 0 && v[v.len() - 1] == c {
        text::string_of(&v, 0, v.len() - 1)
    } else {
        proof {
            assert(v@.subrange(0, v@.len() as int) == v@);
        }
        text::string_of(&v, 0, v.len())
    }
}

impl Quoter {
    /// Quotes `candidate` to replace the word being completed, adding a `/` to mark a
    /// directory if `add_slash` and it doesn't end with one.
    ///
    /// Like readline, a file name is quoted (unless [`Self::quote_file_names`] says not to)
    /// to suit the quote the word is in, if any, and so that expansions in it that name the
    /// file keep working (e.g. `~/` or `$HOME/`). Anything else is inserted as is, after the
    /// word's opening quote.
    pub fn quote(&self, candidate: &ResolvedCandidate, add_slash: bool) -> (r: QuotedCandidate)
        ensures
            r@ == quoted_candidate(self.open_quote, self.quote_file_names, candidate@, add_slash),
    {
        let is_file_name = match candidate.kind {
            CandidateKind::FileName { .. } => true,
            CandidateKind::Other => false,
        };
        if !is_file_name {
            let mut text = String::new();
            if let Some(q) = self.open_quote {
                text::push_char(&mut text, q.as_char());
            }
            text::push_str(&mut text, candidate.text.as_str());
            return QuotedCandidate { text, closed: None };
        }

        // Quote the name, and put a directory's slash after it.
        let tv = text::chars_of(candidate.text.as_str());
        let slash = (tv.len() > 0 && tv[tv.len() - 1] == '/') || add_slash;
        let name = files::strip_path_separator_suffix(candidate.text.as_str());
        let (name, expands) = match &candidate.expanded {
            Some(expanded) => {
                let nv = text::chars_of(name);
                if self.open_quote.is_some() && nv.len() > 0 && nv[0] == '~' {
                    (files::strip_path_separator_suffix(expanded.as_str()), false)
                } else {
                    (name, true)
                }
            },
            None => (name, false),
        };

        let quoted = if self.quote_file_names {
            quote_file_name(name, expands, self.open_quote)
        } else {
            None
        };
        match self.open_quote {
            None => {
                let mut text = String::new();
                match &quoted {
                    Some(t) => text::push_str(&mut text, t.as_str()),
                    None => text::push_str(&mut text, name),
                }
                if slash {
                    text::push_char(&mut text, '/');
                }
                QuotedCandidate { text, closed: None }
            },
            Some(q) => match quoted {
                Some(closed) => {
                    let mut text = strip_trailing(closed.as_str(), q.as_char());
                    let mut closed = closed;
                    if slash {
                        text::push_char(&mut text, '/');
                        text::push_char(&mut closed, '/');
                    }
                    QuotedCandidate { text, closed: Some(closed) }
                },
                None => {
                    let mut text = String::new();
                    text::push_char(&mut text, q.as_char());
                    text::push_str(&mut text, name);
                    if slash {
                        text::push_char(&mut text, '/');
                    }
                    QuotedCandidate { text, closed: None }
                },
            },
        }
    }
}

/// Candidates that are not file names are never quoted: the quoted form is the text as it
/// is, after the quote the word is in (if any), with nothing to close; whatever the
/// options.
pub proof fn law_other_candidates_are_not_quoted(
    open_quote: Option<Quote>,
    quote_file_names: bool,
    c: super::CandidateView,
    add_slash: bool,
)
    requires
        c.kind == CandidateKind::Other,
    ensures
        quoted_candidate(open_quote, quote_file_names, c, add_slash) == (
            match open_quote {
                Some(q) => seq![quote_char(q)] + c.text,
                None => c.text,
            },
            None::<Seq<char>>,
        ),
{
}

} // verus!
