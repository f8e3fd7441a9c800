//! Finds the words of an input line being completed, as bash does: both the word to
//! complete (readline's) and the words of `COMP_WORDS`.
//!
//! Positions in the line are byte offsets, as the line editor gives the cursor; the model
//! speaks of char positions and maps them to bytes with [`byte_at`].

use std::ops::Range;
use vstd::prelude::*;

use super::quoting::{
    self, byte_at, is_quoting_char, is_unquoted, lemma_byte_at_mono, lemma_byte_at_strict,
    quote_char, scan_state, scanned_at, text_width, Quote, WordQuoting,
};
use crate::escape;
use crate::text;

verus! {

/// The words of `COMP_WORDS` in an input line being completed, and which the cursor is in.
#[derive(Debug)]
pub struct LineWords {
    /// The words of `COMP_WORDS`.
    pub comp_words: Vec<String>,
    /// The index of the cursor's word in `comp_words` (`COMP_CWORD`), if there are any
    /// words.
    pub cword: Option<usize>,
}

/// The texts of some strings.
pub open spec fn texts(v: Seq<String>) -> Seq<Seq<char>> {
    v.map_values(|s: String| s@)
}

impl LineWords {
    /// The words and the cursor's word, as values.
    pub open spec fn view(&self) -> (Seq<Seq<char>>, Option<int>) {
        (
            texts(self.comp_words@),
            match self.cword {
                Some(i) => Some(i as int),
                None => None,
            },
        )
    }

    /// Returns the command being completed for: the first word, if any.
    pub fn command_name(&self) -> (r: Option<&str>)
        ensures
            match r {
                Some(w) => self.comp_words@.len() > 0 && w@ == self.comp_words@[0]@,
                None => self.comp_words@.len() == 0,
            },
    {
        if self.comp_words.len() > 0 {
            Some(self.comp_words[0].as_str())
        } else {
            None
        }
    }

    /// Returns the word before the cursor's word, if any; like bash, when completing the
    /// first word, that word itself.
    pub fn preceding_word(&self) -> (r: Option<&str>)
        ensures
            match self.cword {
                None => r is None,
                Some(i) => {
                    let j = if i == 0 { 0 } else { i - 1 };
                    match r {
                        Some(w) => j < self.comp_words@.len() && w@ == self.comp_words@[j as int]@,
                        None => j >= self.comp_words@.len(),
                    }
                },
            },
    {
        let index = match self.cword {
            Some(i) => if i == 0 { 0 } else { i - 1 },
            None => return None,
        };
        if index < self.comp_words.len() {
            Some(self.comp_words[index].as_str())
        } else {
            None
        }
    }
}

/// The word being completed -- the text that completions replace -- and how it's quoted.
///
/// Like readline, it runs up to the cursor from just past an unclosed quote the cursor is
/// in, or else from just past the last unquoted word-break char, so it may be only part of
/// a shell word.
#[derive(Debug)]
pub struct CompletionWord {
    /// The word's text, without its unclosed quote; a completion function's `$2`.
    pub text: String,
    /// The byte range of the line that candidates replace: the word's text, and the
    /// unclosed quote before it, if any.
    pub range: Range<usize>,
    /// How the word is quoted.
    pub quoting: WordQuoting,
}

/// Whether `cursor` is a byte offset in `s` where a char starts, or its end.
pub open spec fn is_boundary(s: Seq<char>, cursor: int) -> bool {
    exists|k: int| 0 <= k <= s.len() && byte_at(s, k) == cursor
}

/// How many chars of `s` come before the byte offset `cursor`, a boundary.
pub open spec fn chars_before(s: Seq<char>, cursor: int) -> int {
    choose|k: int| 0 <= k <= s.len() && byte_at(s, k) == cursor
}

/// Whether the `i`-th char of `s` breaks words: an unquoted word-break char.
pub open spec fn breaks_at(s: Seq<char>, breaks: Seq<char>, i: int) -> bool {
    is_unquoted(s, i) && breaks.contains(s[i])
}

/// The last char before the `k`-th that breaks words, or -1.
pub open spec fn last_break(s: Seq<char>, breaks: Seq<char>, k: int) -> int
    decreases k,
{
    if k <= 0 {
        -1
    } else if breaks_at(s, breaks, k - 1) {
        k - 1
    } else {
        last_break(s, breaks, k - 1)
    }
}

/// Where the word being completed at char position `k` starts, if it isn't in a quote:
/// just past the last word-break char before it, or at it if that is one of bash's special
/// prefixes, `$` or `@`; at the start if there's none.
pub open spec fn unquoted_word_start(s: Seq<char>, breaks: Seq<char>, k: int) -> int {
    let j = last_break(s, breaks, k);
    if j < 0 {
        0
    } else if s[j] == '$' || s[j] == '@' {
        j
    } else {
        j + 1
    }
}

/// The word being completed at char position `k` of `s`, in char positions: where the
/// range it replaces starts (at its open quote, if any), where its text starts, and the
/// quote it's in.
pub open spec fn completion_word_at(s: Seq<char>, breaks: Seq<char>, k: int) -> (int, int, Option<Quote>) {
    match scan_state(s, k).0 {
        Some((p, q)) => (p, p + 1, Some(q)),
        None => (unquoted_word_start(s, breaks, k), unquoted_word_start(s, breaks, k), None),
    }
}

/// Whether anything in `s` is quoted.
pub open spec fn has_quoting_in(s: Seq<char>) -> bool {
    exists|i: int| 0 <= i < s.len() && is_quoting_char(#[trigger] s[i])
}

proof fn lemma_last_break(s: Seq<char>, breaks: Seq<char>, k: int)
    requires
        0 <= k <= s.len(),
    ensures
        -1 <= last_break(s, breaks, k) < k,
        last_break(s, breaks, k) >= 0 ==> breaks_at(s, breaks, last_break(s, breaks, k)),
        forall|j: int| last_break(s, breaks, k) < j < k ==> !breaks_at(s, breaks, j),
    decreases k,
{
    if k > 0 && !breaks_at(s, breaks, k - 1) {
        lemma_last_break(s, breaks, k - 1);
    }
}

/// How the open quote moves from one char to the next: it only opens where it is.
proof fn lemma_open_pos(s: Seq<char>, i: int)
    requires
        0 <= i < s.len(),
    ensures
        scan_state(s, i).0 is None && scan_state(s, i + 1).0 is Some ==> scan_state(s, i + 1).0.unwrap().0 == i,
        scan_state(s, i).0 is Some && scan_state(s, i + 1).0 is Some ==> scan_state(s, i + 1).0 == scan_state(s, i).0,
{
    reveal(scan_state);
}

/// Returns whether any of the first `k` chars of `v` is quoted.
fn has_quoting_before(v: &Vec<char>, k: usize) -> (r: bool)
    requires
        k <= v@.len(),
    ensures
        r == has_quoting_in(v@.take(k as int)),
{
    let mut i: usize = 0;
    while i < k
        invariant
            k <= v@.len(),
            i <= k,
            forall|j: int| 0 <= j < i ==> !is_quoting_char(#[trigger] v@[j]),
        decreases k - i,
    {
        let c = text::char_at(v, i);
        if c == '\\' || c == '\'' || c == '"' {
            proof {
                assert(is_quoting_char(v@.take(k as int)[i as int]));
            }
            return true;
        }
        i = i + 1;
    }
    proof {
        assert forall|j: int| 0 <= j < k implies !is_quoting_char(#[trigger] v@.take(k as int)[j]) by {
            assert(v@.take(k as int)[j] == v@[j]);
        }
    }
    false
}

/// Finds the word to complete like readline: if the cursor is in an unclosed quote, it
/// starts just past that quote; otherwise, just past the last unquoted word-break char
/// before the cursor (or at it, if it's one of bash's special prefixes, `$` or `@`).
///
/// `cursor` must be a char boundary in `input`.
pub fn find_completion_word(input: &str, word_breaks: &[char], cursor: usize) -> (r: CompletionWord)
    requires
        text_width(input@) <= usize::MAX,
        is_boundary(input@, cursor as int),
    ensures
        ({
            let s = input@;
            let k = chars_before(s, cursor as int);
            let (start, text_start, quote) = completion_word_at(s, word_breaks@, k);
            &&& r.text@ == s.subrange(text_start, k)
            &&& r.range.start == byte_at(s, start)
            &&& r.range.end == cursor
            &&& r.quoting.quote == quote
            &&& r.quoting.dequote == has_quoting_in(s.take(k))
            &&& !r.quoting.dequote_again
        }),
{
    let ghost s = input@;
    let ghost k = chars_before(s, cursor as int);
    let v = text::chars_of(input);
    let scanned = quoting::scan(input);
    let mut word_start: usize = 0;
    let mut word_start_byte: usize = 0;
    let mut open: Option<(usize, Quote)> = None;
    let mut open_pos: usize = 0;
    let mut i: usize = 0;
    proof {
        assert(0 <= k <= s.len() && byte_at(s, k) == cursor);
        assert(scan_state(s, 0).0 is None) by {
            reveal(scan_state);
        }
        assert(byte_at(s, 0) == 0) by {
            reveal(byte_at);
            reveal(text_width);
        }
    }
    while i < scanned.len() && scanned[i].index < cursor
        invariant
            s == input@,
            v@ == s,
            text_width(s) <= usize::MAX,
            0 <= k <= s.len(),
            byte_at(s, k) == cursor,
            scanned@.len() == s.len(),
            forall|j: int| 0 <= j < s.len() ==> scanned_at(s, j, #[trigger] scanned@[j]),
            i <= k,
            word_start == unquoted_word_start(s, word_breaks@, i as int),
            word_start <= i,
            word_start_byte == byte_at(s, word_start as int),
            quoting::open_view(open) == quoting::open_in_bytes(s, scan_state(s, i as int).0),
            match scan_state(s, i as int).0 {
                Some((p, _)) => open_pos == p && p < i,
                None => true,
            },
        decreases s.len() - i,
    {
        proof {
            assert(scanned_at(s, i as int, scanned@[i as int]));
            if i >= k {
                lemma_byte_at_mono(s, k, i as int);
            }
        }
        let sc = &scanned[i];
        proof {
            quoting::lemma_byte_at_next(s, i as int);
            lemma_byte_at_mono(s, i + 1, s.len() as int);
        }
        if sc.unquoted && escape::holds_char(word_breaks, sc.c) {
            if sc.c == '$' || sc.c == '@' {
                word_start = i;
                word_start_byte = sc.index;
            } else {
                word_start = i + 1;
                word_start_byte = sc.index + quoting::width_of(sc.c);
            }
        }
        proof {
            lemma_open_pos(s, i as int);
        }
        if open.is_none() && sc.open_quote.is_some() {
            open_pos = i;
        }
        open = sc.open_quote;
        i = i + 1;
    }
    proof {
        if i < k {
            assert(scanned_at(s, i as int, scanned@[i as int]));
            lemma_byte_at_strict(s, i as int, k);
        }
        assert(i == k);
    }
    let ghost word = completion_word_at(s, word_breaks@, k);
    let (start, text_start, quote): (usize, usize, Option<Quote>) = match open {
        Some((index, q)) => (index, open_pos + 1, Some(q)),
        None => (word_start_byte, word_start, None),
    };
    let text = text::string_of(&v, text_start, i);
    let dequote = has_quoting_before(&v, i);
    CompletionWord {
        text,
        range: start..cursor,
        quoting: WordQuoting { quote, dequote, dequote_again: false },
    }
}

/// Whether `c` is ASCII whitespace.
pub open spec fn is_ascii_space(c: char) -> bool {
    c == ' ' || c == '\t' || c == '\n' || c == '\x0C' || c == '\r'
}

/// How the `i`-th char of `s` takes part in `COMP_WORDS`: 0 for whitespace that breaks
/// words, which separates them; 1 for another word-break char; 2 for any other char.
pub open spec fn char_class(s: Seq<char>, breaks: Seq<char>, i: int) -> int {
    if breaks_at(s, breaks, i) {
        if is_ascii_space(s[i]) {
            0
        } else {
            1
        }
    } else {
        2
    }
}

/// The words of `COMP_WORDS` in the first `n` chars of `s`, as char ranges, like bash:
/// runs of chars other than word breaks are words, and so are runs of word-break chars
/// other than whitespace; whitespace separates words but isn't one.
pub open spec fn runs(s: Seq<char>, breaks: Seq<char>, n: int) -> Seq<(int, int)>
    decreases n,
{
    if n <= 0 {
        Seq::empty()
    } else {
        let prev = runs(s, breaks, n - 1);
        let cl = char_class(s, breaks, n - 1);
        if cl == 0 {
            prev
        } else if prev.len() > 0 && prev.last().1 == n - 1 && char_class(s, breaks, n - 2) == cl {
            prev.update(prev.len() - 1, (prev.last().0, n))
        } else {
            prev.push((n - 1, n))
        }
    }
}

/// Runs are in order, inside the first `n` chars, and none is empty.
proof fn lemma_runs(s: Seq<char>, breaks: Seq<char>, n: int)
    requires
        0 <= n,
    ensures
        forall|j: int| 0 <= j < runs(s, breaks, n).len() ==> 0 <= (#[trigger] runs(s, breaks, n)[j]).0 < runs(s, breaks, n)[j].1 <= n,
        forall|j: int, l: int| 0 <= j < l < runs(s, breaks, n).len() ==> (#[trigger] runs(s, breaks, n)[j]).1 <= (#[trigger] runs(s, breaks, n)[l]).0,
    decreases n,
{
    if n > 0 {
        lemma_runs(s, breaks, n - 1);
        let prev = runs(s, breaks, n - 1);
        let cur = runs(s, breaks, n);
        let cl = char_class(s, breaks, n - 1);
        if cl == 0 {
            assert(cur == prev);
        } else if prev.len() > 0 && prev.last().1 == n - 1 && char_class(s, breaks, n - 2) == cl {
            assert(cur == prev.update(prev.len() - 1, (prev.last().0, n)));
            assert forall|j: int, l: int| 0 <= j < l < cur.len() implies (#[trigger] cur[j]).1 <= (#[trigger] cur[l]).0 by {
                assert(prev[j].1 <= prev[l].0);
            }
        } else {
            assert(cur == prev.push((n - 1, n)));
            assert forall|j: int, l: int| 0 <= j < l < cur.len() implies (#[trigger] cur[j]).1 <= (#[trigger] cur[l]).0 by {
                if l < prev.len() {
                    assert(prev[j].1 <= prev[l].0);
                } else {
                    assert(prev[j].1 <= n - 1);
                }
            }
        }
    }
}

/// A word of `COMP_WORDS`, and where it is in the input line.
#[derive(Debug)]
pub struct CompWord {
    /// The word's text.
    pub text: String,
    /// The byte offset in the input line where the word starts.
    pub start: usize,
    /// The byte offset in the input line just past the word.
    pub end: usize,
}

/// The `j`-th word of `COMP_WORDS` in `s`.
pub open spec fn comp_word_at(s: Seq<char>, breaks: Seq<char>, j: int, w: CompWord) -> bool {
    let run = runs(s, breaks, s.len() as int)[j];
    &&& w.text@ == s.subrange(run.0, run.1)
    &&& w.start == byte_at(s, run.0)
    &&& w.end == byte_at(s, run.1)
}

/// Returns the class of a scanned char (see [`char_class`]).
fn class_of(sc: &quoting::ScannedChar, word_breaks: &[char]) -> (r: u8)
    ensures
        r == (if sc.unquoted && word_breaks@.contains(sc.c) {
            if is_ascii_space(sc.c) { 0u8 } else { 1u8 }
        } else {
            2u8
        }),
{
    if sc.unquoted && escape::holds_char(word_breaks, sc.c) {
        let c = sc.c;
        if c == ' ' || c == '\t' || c == '\n' || c == '\x0C' || c == '\r' {
            0
        } else {
            1
        }
    } else {
        2
    }
}

/// Returns the byte offset of the `a`-th char of `v`, from its scan.
fn byte_offset(scanned: &Vec<quoting::ScannedChar>, a: usize, v: &Vec<char>) -> (r: usize)
    requires
        scanned@.len() == v@.len(),
        forall|j: int| 0 <= j < v@.len() ==> scanned_at(v@, j, #[trigger] scanned@[j]),
        a <= v@.len(),
        text_width(v@) <= usize::MAX,
    ensures
        r == byte_at(v@, a as int),
{
    if a < scanned.len() {
        proof {
            assert(scanned_at(v@, a as int, scanned@[a as int]));
        }
        scanned[a].index
    } else if a == 0 {
        assert(byte_at(v@, 0) == 0) by {
            reveal(byte_at);
            reveal(text_width);
        }
        0
    } else {
        let last = a - 1;
        proof {
            assert(scanned_at(v@, last as int, scanned@[last as int]));
            quoting::lemma_byte_at_next(v@, last as int);
            lemma_byte_at_mono(v@, a as int, v@.len() as int);
        }
        scanned[last].index + quoting::width_of(text::char_at(v, last))
    }
}

/// Splits `input` into the words of `COMP_WORDS`, like bash (see [`runs`]).
pub fn comp_words(input: &str, word_breaks: &[char]) -> (r: Vec<CompWord>)
    requires
        text_width(input@) <= usize::MAX,
    ensures
        r@.len() == runs(input@, word_breaks@, input@.len() as int).len(),
        forall|j: int| 0 <= j < r@.len() ==> comp_word_at(input@, word_breaks@, j, #[trigger] r@[j]),
{
    let ghost s = input@;
    let ghost breaks = word_breaks@;
    let scanned = quoting::scan(input);
    let mut pos: Vec<(usize, usize)> = Vec::new();
    let mut last_class: u8 = 0;
    let mut i: usize = 0;
    while i < scanned.len()
        invariant
            s == input@,
            breaks == word_breaks@,
            scanned@.len() == s.len(),
            forall|j: int| 0 <= j < s.len() ==> scanned_at(s, j, #[trigger] scanned@[j]),
            i <= s.len(),
            i > 0 ==> last_class == char_class(s, breaks, i - 1),
            pos@.len() == runs(s, breaks, i as int).len(),
            forall|j: int| 0 <= j < pos@.len() ==> (#[trigger] pos@[j]).0 == runs(s, breaks, i as int)[j].0
                && pos@[j].1 == runs(s, breaks, i as int)[j].1,
        decreases s.len() - i,
    {
        proof {
            assert(scanned_at(s, i as int, scanned@[i as int]));
            lemma_runs(s, breaks, i as int);
        }
        let cl = class_of(&scanned[i], word_breaks);
        let ghost prev = runs(s, breaks, i as int);
        if cl != 0 {
            let n = pos.len();
            if n > 0 && pos[n - 1].1 == i && last_class == cl {
                let first = pos[n - 1].0;
                pos.set(n - 1, (first, i + 1));
            } else {
                pos.push((i, i + 1));
            }
        }
        proof {
            assert(runs(s, breaks, i + 1) == (if cl == 0 {
                prev
            } else if prev.len() > 0 && prev.last().1 == i && char_class(s, breaks, i - 1) == cl {
                prev.update(prev.len() - 1, (prev.last().0, i + 1))
            } else {
                prev.push((i as int, i + 1))
            }));
        }
        last_class = cl;
        i = i + 1;
    }
    proof {
        lemma_runs(s, breaks, s.len() as int);
    }
    let v = text::chars_of(input);
    let mut words: Vec<CompWord> = Vec::new();
    let mut j: usize = 0;
    while j < pos.len()
        invariant
            s == input@,
            breaks == word_breaks@,
            v@ == s,
            scanned@.len() == s.len(),
            forall|l: int| 0 <= l < s.len() ==> scanned_at(s, l, #[trigger] scanned@[l]),
            text_width(s) <= usize::MAX,
            pos@.len() == runs(s, breaks, s.len() as int).len(),
            forall|l: int| 0 <= l < pos@.len() ==> (#[trigger] pos@[l]).0 == runs(s, breaks, s.len() as int)[l].0
                && pos@[l].1 == runs(s, breaks, s.len() as int)[l].1,
            forall|l: int| 0 <= l < runs(s, breaks, s.len() as int).len() ==> 0 <= (#[trigger] runs(s, breaks, s.len() as int)[l]).0 < runs(s, breaks, s.len() as int)[l].1 <= s.len(),
            j <= pos@.len(),
            words@.len() == j,
            forall|l: int| 0 <= l < j ==> comp_word_at(s, breaks, l, #[trigger] words@[l]),
        decreases pos@.len() - j,
    {
        let (a, b) = pos[j];
        proof {
            lemma_byte_at_mono(s, a as int, b as int);
            lemma_byte_at_mono(s, b as int, s.len() as int);
        }
        let text = text::string_of(&v, a, b);
        let start = byte_offset(&scanned, a, &v);
        let end = byte_offset(&scanned, b, &v);
        let w = CompWord { text, start, end };
        words.push(w);
        j = j + 1;
    }
    words
}

/// Whether the word at char range `w` of `s` touches the byte offset `cursor`.
pub open spec fn touches(s: Seq<char>, w: (int, int), cursor: int) -> bool {
    byte_at(s, w.0) <= cursor <= byte_at(s, w.1)
}

/// The last of the first `n` words `ws` that touches the cursor, or -1.
pub open spec fn last_touching(s: Seq<char>, ws: Seq<(int, int)>, cursor: int, n: int) -> int
    decreases n,
{
    if n <= 0 {
        -1
    } else if touches(s, ws[n - 1], cursor) {
        n - 1
    } else {
        last_touching(s, ws, cursor, n - 1)
    }
}

/// The first of the words `ws`, from the `j`-th on, that doesn't start before the cursor,
/// or their count: for words in order, how many start before it.
pub open spec fn first_not_before(s: Seq<char>, ws: Seq<(int, int)>, cursor: int, j: int) -> int
    decreases ws.len() - j,
{
    if j >= ws.len() {
        ws.len() as int
    } else if byte_at(s, ws[j].0) < cursor {
        first_not_before(s, ws, cursor, j + 1)
    } else {
        j
    }
}

/// The words of `COMP_WORDS` in `s`, as texts, and which the cursor (a byte offset) is in:
/// like bash, the last word touching the cursor; if none does, the cursor is in
/// whitespace, and an empty word is inserted there -- unless there are no words at all.
pub open spec fn line_words_of(s: Seq<char>, breaks: Seq<char>, cursor: int) -> (Seq<Seq<char>>, Option<int>) {
    let ws = runs(s, breaks, s.len() as int);
    let words = Seq::new(ws.len(), |j: int| s.subrange(ws[j].0, ws[j].1));
    if ws.len() == 0 {
        (words, None)
    } else if last_touching(s, ws, cursor, ws.len() as int) >= 0 {
        (words, Some(last_touching(s, ws, cursor, ws.len() as int)))
    } else {
        let p = first_not_before(s, ws, cursor, 0);
        (words.insert(p, Seq::empty()), Some(p))
    }
}

proof fn lemma_first_not_before(s: Seq<char>, ws: Seq<(int, int)>, cursor: int, j: int)
    requires
        0 <= j <= ws.len(),
    ensures
        j <= first_not_before(s, ws, cursor, j) <= ws.len(),
    decreases ws.len() - j,
{
    if j < ws.len() && byte_at(s, ws[j].0) < cursor {
        lemma_first_not_before(s, ws, cursor, j + 1);
    }
}

/// Finds the words of `COMP_WORDS` in `input`, with `word_breaks` as the word-break chars,
/// and which of them the cursor is in (see [`line_words_of`]). They needn't agree with the
/// word to complete.
pub fn find_line_words(input: &str, word_breaks: &[char], cursor: usize) -> (r: LineWords)
    requires
        text_width(input@) <= usize::MAX,
    ensures
        r@ == line_words_of(input@, word_breaks@, cursor as int),
{
    let ghost s = input@;
    let ghost ws = runs(s, word_breaks@, s.len() as int);
    let words = comp_words(input, word_breaks);
    let mut comp: Vec<String> = Vec::new();
    let mut j: usize = 0;
    while j < words.len()
        invariant
            s == input@,
            words@.len() == ws.len(),
            forall|l: int| 0 <= l < ws.len() ==> comp_word_at(s, word_breaks@, l, #[trigger] words@[l]),
            ws == runs(s, word_breaks@, s.len() as int),
            j <= ws.len(),
            comp@.len() == j,
            forall|l: int| 0 <= l < j ==> (#[trigger] comp@[l])@ == s.subrange(ws[l].0, ws[l].1),
        decreases ws.len() - j,
    {
        proof {
            assert(comp_word_at(s, word_breaks@, j as int, words@[j as int]));
        }
        comp.push(words[j].text.clone());
        j = j + 1;
    }
    let ghost expected = Seq::new(ws.len(), |l: int| s.subrange(ws[l].0, ws[l].1));
    proof {
        assert(texts(comp@) == expected);
    }
    if words.len() == 0 {
        return LineWords { comp_words: comp, cword: None };
    }

    // The last word touching the cursor.
    let mut t = words.len();
    while t > 0
        invariant
            s == input@,
            words@.len() == ws.len(),
            forall|l: int| 0 <= l < ws.len() ==> comp_word_at(s, word_breaks@, l, #[trigger] words@[l]),
            ws == runs(s, word_breaks@, s.len() as int),
            t <= ws.len(),
            texts(comp@) == expected,
            expected == Seq::new(ws.len(), |l: int| s.subrange(ws[l].0, ws[l].1)),
            ws.len() > 0,
            last_touching(s, ws, cursor as int, ws.len() as int) == last_touching(s, ws, cursor as int, t as int),
        decreases t,
    {
        proof {
            assert(comp_word_at(s, word_breaks@, t - 1, words@[t - 1]));
        }
        if words[t - 1].start <= cursor && cursor <= words[t - 1].end {
            proof {
                assert(touches(s, ws[t - 1], cursor as int));
                assert(last_touching(s, ws, cursor as int, t as int) == t - 1);
                assert(texts(comp@) =~= line_words_of(s, word_breaks@, cursor as int).0);
            }
            return LineWords { comp_words: comp, cword: Some(t - 1) };
        }
        t = t - 1;
    }

    // None touches it: insert an empty word where the cursor is.
    let mut p: usize = 0;
    while p < words.len() && words[p].start < cursor
        invariant
            s == input@,
            words@.len() == ws.len(),
            forall|l: int| 0 <= l < ws.len() ==> comp_word_at(s, word_breaks@, l, #[trigger] words@[l]),
            ws == runs(s, word_breaks@, s.len() as int),
            p <= ws.len(),
            first_not_before(s, ws, cursor as int, 0) == first_not_before(s, ws, cursor as int, p as int),
        decreases ws.len() - p,
    {
        proof {
            assert(comp_word_at(s, word_breaks@, p as int, words@[p as int]));
        }
        p = p + 1;
    }
    proof {
        if p < words.len() {
            assert(comp_word_at(s, word_breaks@, p as int, words@[p as int]));
        }
    }
    let ghost before = comp@;
    comp.insert(p, String::new());
    proof {
        assert(texts(comp@) =~= expected.insert(p as int, Seq::empty()));
    }
    LineWords { comp_words: comp, cword: Some(p) }
}

} // verus!
