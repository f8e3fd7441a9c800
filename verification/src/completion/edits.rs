//! Makes candidates edits of the line being completed, as readline does with the candidates
//! bash generates: quoting them, closing the quote the word being completed is in, marking
//! directories, and adding a trailing space -- whatever decides what the line says.

use std::ops::Range;
use vstd::prelude::*;

use super::quoting::{
    self, byte_at, lemma_byte_at_mono, lemma_byte_at_strict, quote_char, quoted_candidate,
    text_width, Quote, Quoter,
};
use super::words::{chars_before, is_boundary};
use super::{
    Candidate, CandidateKind, CandidateView, CompleteOption, Completions, Edit, EditPrefs,
    GenerationOptions, ResolvedCandidate,
};
use crate::text;

verus! {

/// An edit as values: the byte range it replaces, and its text.
pub open spec fn edit_view(e: Edit) -> (int, int, Seq<char>) {
    (e.replace.start as int, e.replace.end as int, e.text@)
}

/// The candidates without duplicates, each where it first occurs.
pub open spec fn unique_views(s: Seq<CandidateView>) -> Seq<CandidateView>
    decreases s.len(),
{
    if s.len() == 0 {
        Seq::empty()
    } else {
        let prev = unique_views(s.drop_last());
        if prev.contains(s.last()) {
            prev
        } else {
            prev.push(s.last())
        }
    }
}

/// Whether `t` begins each of `ts`.
pub open spec fn is_common_prefix(t: Seq<char>, ts: Seq<Seq<char>>) -> bool {
    forall|i: int| 0 <= i < ts.len() ==> t.len() <= (#[trigger] ts[i]).len() && ts[i].take(t.len() as int) == t
}

/// Whether `t` is the longest text that begins each of `ts` (empty if there are none).
pub open spec fn is_longest_common_prefix(t: Seq<char>, ts: Seq<Seq<char>>) -> bool {
    &&& is_common_prefix(t, ts)
    &&& ts.len() == 0 ==> t.len() == 0
    &&& ts.len() > 0 ==> forall|c: char| !is_common_prefix(#[trigger] t.push(c), ts)
}

/// The longest text that begins each of `ts`.
pub open spec fn longest_common_prefix(ts: Seq<Seq<char>>) -> Seq<char> {
    choose|t: Seq<char>| is_longest_common_prefix(t, ts)
}

/// There is only one longest common prefix.
proof fn lemma_longest_common_prefix_unique(t: Seq<char>, ts: Seq<Seq<char>>)
    requires
        is_longest_common_prefix(t, ts),
    ensures
        longest_common_prefix(ts) == t,
{
    let u = longest_common_prefix(ts);
    assert(is_longest_common_prefix(u, ts));
    if ts.len() == 0 {
        assert(t =~= u);
    } else {
        assert(ts[0].take(t.len() as int) == t);
        assert(ts[0].take(u.len() as int) == u);
        if t.len() < u.len() {
            let c = u[t.len() as int];
            assert forall|i: int| 0 <= i < ts.len() implies t.push(c).len() <= (#[trigger] ts[i]).len()
                && ts[i].take(t.push(c).len() as int) == t.push(c) by {
                assert(ts[i].take(u.len() as int) == u);
                assert(ts[i].take(t.len() as int) == t);
                assert(ts[i].take((t.len() + 1) as int) =~= t.push(c));
            }
            assert(is_common_prefix(t.push(c), ts));
        } else if u.len() < t.len() {
            let c = t[u.len() as int];
            assert forall|i: int| 0 <= i < ts.len() implies u.push(c).len() <= (#[trigger] ts[i]).len()
                && ts[i].take(u.push(c).len() as int) == u.push(c) by {
                assert(ts[i].take(u.len() as int) == u);
                assert(ts[i].take(t.len() as int) == t);
                assert(ts[i].take((u.len() + 1) as int) =~= u.push(c));
            }
            assert(is_common_prefix(u.push(c), ts));
        } else {
            assert(t =~= u);
        }
    }
}

/// The texts of candidates.
pub open spec fn texts_of(cs: Seq<CandidateView>) -> Seq<Seq<char>> {
    cs.map_values(|c: CandidateView| c.text)
}

/// `e` without `rest` at its end, if it ends with it.
pub open spec fn without_suffix(e: Seq<char>, rest: Seq<char>) -> Option<Seq<char>> {
    if rest.len() <= e.len() && e.skip(e.len() - rest.len()) == rest {
        Some(e.take(e.len() - rest.len()))
    } else {
        None
    }
}

/// The longest prefix the candidates share, as a candidate: like readline, what several
/// candidates are first completed to. It's a file name if they are, but not a directory's.
/// Like readline, it keeps a leading `~` as typed; otherwise, it expands as the first
/// candidate does, if what it leaves off of that one is the end of its expanded name.
pub open spec fn prefix_candidate(cs: Seq<CandidateView>) -> CandidateView {
    let t = longest_common_prefix(texts_of(cs));
    if cs.len() == 0 {
        CandidateView { text: t, kind: CandidateKind::Other, expanded: None }
    } else {
        let first = cs[0];
        CandidateView {
            text: t,
            kind: match first.kind {
                CandidateKind::FileName { .. } => CandidateKind::FileName { is_dir: false },
                CandidateKind::Other => CandidateKind::Other,
            },
            expanded: if t.len() > 0 && t[0] == '~' {
                None
            } else {
                match first.expanded {
                    Some(e) => without_suffix(e, first.text.skip(t.len() as int)),
                    None => None,
                }
            },
        }
    }
}

/// The text of `line` in the byte range `a..b`, if both are char boundaries in order.
pub open spec fn line_slice(line: Seq<char>, a: int, b: int) -> Option<Seq<char>> {
    if is_boundary(line, a) && is_boundary(line, b) && a <= b {
        Some(line.subrange(chars_before(line, a), chars_before(line, b)))
    } else {
        None
    }
}

/// The char of `line` at the byte offset `b`, if it's a char boundary before its end.
pub open spec fn char_at_byte(line: Seq<char>, b: int) -> Option<char> {
    if is_boundary(line, b) && chars_before(line, b) < line.len() {
        Some(line[chars_before(line, b)])
    } else {
        None
    }
}

/// Makes candidates edits of a line, replacing the word being completed.
pub struct CandidateEdits<'a> {
    /// The line being completed.
    pub line: &'a str,
    /// The byte range of the word being completed, starting at the quote it's in (if any)
    /// and running up to the cursor.
    pub word: Range<usize>,
    /// The quote the word is in, if the cursor is inside an unclosed quote.
    pub open_quote: Option<Quote>,
    /// The options in effect for the candidates.
    pub options: &'a GenerationOptions,
    /// The line editor's preferences.
    pub prefs: &'a EditPrefs,
}

/// The edit a candidate `c` makes of `line`, replacing the word at `word`, in `open_quote`
/// (see [`CandidateEdits::candidate`]): the end of the range it replaces, and its text.
pub open spec fn candidate_edit(
    line: Seq<char>,
    word: (int, int),
    open_quote: Option<Quote>,
    options: Set<CompleteOption>,
    mark_directories: bool,
    c: CandidateView,
) -> (int, Seq<char>) {
    let next_char = char_at_byte(line, word.1);
    let at_end_of_line = next_char is None;
    let is_dir = c.kind == CandidateKind::FileName { is_dir: true };
    let quoted = quoted_candidate(open_quote, !options.contains(CompleteOption::NoQuote), c, is_dir && mark_directories);
    let (end, text) = match quoted.1 {
        Some(closed) => (
            match open_quote {
                Some(q) => if next_char == Some(quote_char(q)) { word.1 + 1 } else { word.1 },
                None => word.1,
            },
            closed,
        ),
        None => (
            word.1,
            match open_quote {
                Some(q) => if at_end_of_line && !is_dir { quoted.0.push(quote_char(q)) } else { quoted.0 },
                None => quoted.0,
            },
        ),
    };
    (end, if at_end_of_line && !is_dir && !options.contains(CompleteOption::NoSpace) { text.push(' ') } else { text })
}

/// Returns the char position in `v` of the byte offset `b`, if it's a char boundary.
fn char_position(v: &Vec<char>, b: usize) -> (r: Option<usize>)
    requires
        text_width(v@) <= usize::MAX,
    ensures
        match r {
            Some(k) => is_boundary(v@, b as int) && k == chars_before(v@, b as int),
            None => !is_boundary(v@, b as int),
        },
{
    let mut k: usize = 0;
    let mut offset: usize = 0;
    assert(byte_at(v@, 0) == 0) by {
        reveal(byte_at);
        reveal(text_width);
    }
    loop
        invariant
            text_width(v@) <= usize::MAX,
            k <= v@.len(),
            offset == byte_at(v@, k as int),
            offset <= b,
            forall|j: int| 0 <= j < k ==> byte_at(v@, j) != b,
        decreases v@.len() - k,
    {
        if offset == b {
            proof {
                lemma_chars_before_at(v@, k as int);
            }
            return Some(k);
        }
        if k == v.len() {
            proof {
                lemma_not_boundary(v@, b as int, k as int);
            }
            return None;
        }
        proof {
            quoting::lemma_byte_at_next(v@, k as int);
            lemma_byte_at_mono(v@, k + 1, v@.len() as int);
        }
        let next = offset + quoting::width_of(text::char_at(v, k));
        if next > b {
            proof {
                lemma_not_boundary_between(v@, b as int, k as int);
            }
            return None;
        }
        offset = next;
        k = k + 1;
    }
}

/// A char position is the one `chars_before` finds for its byte offset.
proof fn lemma_chars_before_at(s: Seq<char>, k: int)
    requires
        0 <= k <= s.len(),
    ensures
        is_boundary(s, byte_at(s, k) as int),
        chars_before(s, byte_at(s, k) as int) == k,
{
    let b = byte_at(s, k) as int;
    assert(0 <= k <= s.len() && byte_at(s, k) == b);
    let j = chars_before(s, b);
    if j < k {
        lemma_byte_at_strict(s, j, k);
    } else if k < j {
        lemma_byte_at_strict(s, k, j);
    }
}

/// A byte offset that no char position up to the end has is no boundary.
proof fn lemma_not_boundary(s: Seq<char>, b: int, n: int)
    requires
        n == s.len(),
        forall|j: int| 0 <= j < n ==> byte_at(s, j) != b,
        byte_at(s, n) != b,
    ensures
        !is_boundary(s, b),
{
    if is_boundary(s, b) {
        let j = choose|j: int| 0 <= j <= s.len() && byte_at(s, j) == b;
        assert(byte_at(s, j) == b);
    }
}

/// A byte offset strictly inside a char is no boundary.
proof fn lemma_not_boundary_between(s: Seq<char>, b: int, k: int)
    requires
        0 <= k < s.len(),
        byte_at(s, k) < b < byte_at(s, k + 1),
        forall|j: int| 0 <= j < k ==> byte_at(s, j) != b,
    ensures
        !is_boundary(s, b),
{
    if is_boundary(s, b) {
        let j = choose|j: int| 0 <= j <= s.len() && byte_at(s, j) == b;
        if j <= k {
            if j < k {
                assert(byte_at(s, j) != b);
            }
        } else {
            lemma_byte_at_mono(s, k + 1, j);
        }
    }
}

/// Returns whether `a` and `b` are the same candidate.
fn same_candidate(a: &ResolvedCandidate, b: &ResolvedCandidate) -> (r: bool)
    ensures
        r == (a@ == b@),
{
    if !text::str_eq(a.text.as_str(), b.text.as_str()) {
        return false;
    }
    if a.kind != b.kind {
        return false;
    }
    match (&a.expanded, &b.expanded) {
        (Some(x), Some(y)) => text::str_eq(x.as_str(), y.as_str()),
        (None, None) => true,
        _ => false,
    }
}

/// The candidates as values.
pub open spec fn views(cs: Seq<ResolvedCandidate>) -> Seq<CandidateView> {
    cs.map_values(|c: ResolvedCandidate| c@)
}

/// Returns how long the longest prefix is that the texts `vs` share (0 if there are none).
fn common_prefix_len(vs: &Vec<Vec<char>>) -> (n: usize)
    ensures
        vs@.len() > 0 ==> n <= vs@[0]@.len(),
        is_longest_common_prefix(
            if vs@.len() > 0 { vs@[0]@.take(n as int) } else { Seq::empty() },
            vs@.map_values(|v: Vec<char>| v@),
        ),
{
    let ghost ts = vs@.map_values(|v: Vec<char>| v@);
    if vs.len() == 0 {
        return 0;
    }
    let ghost first = vs@[0]@;
    let mut n: usize = 0;
    proof {
        assert forall|j: int| 0 <= j < ts.len() implies first.take(0).len() <= (#[trigger] ts[j]).len()
            && ts[j].take(0) == first.take(0) by {
            assert(ts[j].take(0) =~= first.take(0));
        }
    }
    loop
        invariant
            ts == vs@.map_values(|v: Vec<char>| v@),
            vs@.len() > 0,
            first == vs@[0]@,
            n <= first.len(),
            is_common_prefix(first.take(n as int), ts),
        decreases first.len() - n,
    {
        // Whether every text goes on with the same char as the first.
        let mut all = n < vs[0].len();
        let mut i: usize = 0;
        while all && i < vs.len()
            invariant
                ts == vs@.map_values(|v: Vec<char>| v@),
                vs@.len() > 0,
                first == vs@[0]@,
                i <= vs@.len(),
                all ==> n < first.len(),
                all ==> forall|j: int| 0 <= j < i ==> n < (#[trigger] ts[j]).len() && ts[j][n as int] == first[n as int],
                !all ==> (n >= first.len() || exists|j: int| 0 <= j < vs@.len() && (n >= (#[trigger] ts[j]).len() || ts[j][n as int] != first[n as int])),
            decreases vs@.len() - i,
        {
            let w = &vs[i];
            if n >= w.len() || w[n] != vs[0][n] {
                proof {
                    assert(ts[i as int] == vs@[i as int]@);
                }
                all = false;
            } else {
                proof {
                    assert(ts[i as int] == vs@[i as int]@);
                }
            }
            i = i + 1;
        }
        if !all {
            proof {
                let t = first.take(n as int);
                assert forall|c: char| !is_common_prefix(#[trigger] t.push(c), ts) by {
                    if n >= first.len() {
                        assert(ts[0] == first);
                        assert(t.push(c).len() > ts[0].len());
                    } else {
                        let j = choose|j: int| 0 <= j < vs@.len() && (n >= (#[trigger] ts[j]).len() || ts[j][n as int] != first[n as int]);
                        if is_common_prefix(t.push(c), ts) {
                            assert(ts[0] == first);
                            assert(ts[0].take((n + 1) as int)[n as int] == c);
                            assert(ts[j].take((n + 1) as int)[n as int] == c);
                        }
                    }
                }
            }
            return n;
        }
        proof {
            let t = first.take(n as int);
            assert forall|j: int| 0 <= j < ts.len() implies first.take(n + 1).len() <= (#[trigger] ts[j]).len()
                && ts[j].take(n + 1) == first.take(n + 1) by {
                assert(ts[j].take(n as int) == t);
                assert(ts[j].take(n + 1) =~= first.take(n + 1));
            }
        }
        n = n + 1;
    }
}

/// Returns the longest prefix `strings` share.
pub fn common_str_prefix(strings: &[&str]) -> (r: String)
    ensures
        r@ == longest_common_prefix(strings@.map_values(|s: &str| s@)),
        is_longest_common_prefix(r@, strings@.map_values(|s: &str| s@)),
{
    let mut vs: Vec<Vec<char>> = Vec::new();
    let mut i: usize = 0;
    while i < strings.len()
        invariant
            i <= strings@.len(),
            vs@.len() == i,
            forall|j: int| 0 <= j < i ==> (#[trigger] vs@[j])@ == strings@[j]@,
        decreases strings@.len() - i,
    {
        vs.push(text::chars_of(strings[i]));
        i = i + 1;
    }
    let n = common_prefix_len(&vs);
    proof {
        assert(vs@.map_values(|v: Vec<char>| v@) =~= strings@.map_values(|s: &str| s@));
    }
    let r = if vs.len() > 0 { text::string_of(&vs[0], 0, n) } else { String::new() };
    proof {
        let t = if vs@.len() > 0 { vs@[0]@.take(n as int) } else { Seq::empty() };
        assert(r@ == t);
        lemma_longest_common_prefix_unique(t, strings@.map_values(|s: &str| s@));
    }
    r
}

/// Returns `e` without `rest` at its end, if it ends with it.
fn strip_suffix(e: &str, rest: &Vec<char>) -> (r: Option<String>)
    ensures
        super::opt_text(r) == without_suffix(e@, rest@),
{
    let ev = text::chars_of(e);
    if rest.len() > ev.len() {
        return None;
    }
    let total = ev.len();
    let start = total - rest.len();
    let mut i: usize = 0;
    proof {
        assert(ev@ == e@);
    }
    while i < rest.len()
        invariant
            start + rest@.len() == ev@.len(),
            ev@.len() == total,
            ev@ == e@,
            i <= rest@.len(),
            forall|j: int| 0 <= j < i ==> ev@[start + j] == rest@[j],
        decreases rest@.len() - i,
    {
        assert(start + i < ev@.len());
        if ev[start + i] != rest[i] {
            proof {
                assert(ev@.skip(start as int)[i as int] != rest@[i as int]);
                assert(ev@.skip(start as int) != rest@);
            }
            return None;
        }
        i = i + 1;
    }
    proof {
        assert(ev@.skip(start as int) =~= rest@);
    }
    Some(text::string_of(&ev, 0, start))
}

/// Returns the longest prefix the candidates share, as a candidate (see
/// [`prefix_candidate`]).
pub fn common_prefix(candidates: &[ResolvedCandidate]) -> (r: ResolvedCandidate)
    ensures
        r@ == prefix_candidate(views(candidates@)),
{
    let mut vs: Vec<Vec<char>> = Vec::new();
    let mut i: usize = 0;
    while i < candidates.len()
        invariant
            i <= candidates@.len(),
            vs@.len() == i,
            forall|j: int| 0 <= j < i ==> (#[trigger] vs@[j])@ == candidates@[j].text@,
        decreases candidates@.len() - i,
    {
        vs.push(text::chars_of(candidates[i].text.as_str()));
        i = i + 1;
    }
    let n = common_prefix_len(&vs);
    let ghost ts = texts_of(views(candidates@));
    proof {
        assert(vs@.map_values(|v: Vec<char>| v@) =~= ts);
    }
    if vs.len() == 0 {
        let t = String::new();
        proof {
            lemma_longest_common_prefix_unique(t@, ts);
        }
        return ResolvedCandidate { text: t, kind: CandidateKind::Other, expanded: None };
    }
    let t = text::string_of(&vs[0], 0, n);
    proof {
        lemma_longest_common_prefix_unique(t@, ts);
    }
    let first = &candidates[0];
    let kind = match first.kind {
        CandidateKind::FileName { .. } => CandidateKind::FileName { is_dir: false },
        CandidateKind::Other => CandidateKind::Other,
    };
    let keeps_tilde = n > 0 && vs[0][0] == '~';
    let expanded = if keeps_tilde {
        None
    } else {
        match &first.expanded {
            Some(e) => {
                let rest = text::chars_of(text::string_of(&vs[0], n, vs[0].len()).as_str());
                proof {
                    assert(vs@[0]@.subrange(n as int, vs@[0]@.len() as int) == first.text@.skip(n as int));
                }
                strip_suffix(e.as_str(), &rest)
            },
            None => None,
        }
    };
    ResolvedCandidate { text: t, kind, expanded }
}

/// The edit that completes the word at `word` of `line` to `prefix`, the candidates'
/// common prefix (see [`CandidateEdits::partial_edit`]): `None` if the prefix is empty or
/// quoted is what the word already says.
pub open spec fn partial_edit_of(
    line: Seq<char>,
    word: (int, int),
    open_quote: Option<Quote>,
    options: Set<CompleteOption>,
    prefix: CandidateView,
) -> Option<(int, int, Seq<char>)> {
    let text = quoted_candidate(open_quote, !options.contains(CompleteOption::NoQuote), prefix, false).0;
    if prefix.text.len() == 0 || line_slice(line, word.0, word.1) == Some(text) {
        None
    } else {
        Some((word.0, word.1, text))
    }
}

/// An optional edit as values.
pub open spec fn opt_edit_view(e: Option<Edit>) -> Option<(int, int, Seq<char>)> {
    match e {
        Some(e) => Some(edit_view(e)),
        None => None,
    }
}

/// Whether `r` is the candidate that `c` makes, replacing the word at `word` of `line`.
pub open spec fn candidate_made(
    line: Seq<char>,
    word: (int, int),
    open_quote: Option<Quote>,
    options: Set<CompleteOption>,
    mark_directories: bool,
    c: CandidateView,
    r: Candidate,
) -> bool {
    let (end, text) = candidate_edit(line, word, open_quote, options, mark_directories, c);
    &&& r.value@ == c.text
    &&& r.kind == c.kind
    &&& edit_view(r.edit) == (word.0, end, text)
}

/// Returns a copy of `c`.
fn copy_candidate(c: &ResolvedCandidate) -> (r: ResolvedCandidate)
    ensures
        r@ == c@,
{
    let expanded = match &c.expanded {
        Some(e) => Some(e.clone()),
        None => None,
    };
    ResolvedCandidate { text: c.text.clone(), kind: c.kind, expanded }
}

/// A byte offset that is no smaller than another has no fewer chars before it.
proof fn lemma_chars_before_mono(s: Seq<char>, a: int, b: int)
    requires
        is_boundary(s, a),
        is_boundary(s, b),
        a <= b,
    ensures
        chars_before(s, a) <= chars_before(s, b),
{
    let ka = chars_before(s, a);
    let kb = chars_before(s, b);
    assert(0 <= ka <= s.len() && byte_at(s, ka) == a);
    assert(0 <= kb <= s.len() && byte_at(s, kb) == b);
    if kb < ka {
        lemma_byte_at_strict(s, kb, ka);
    }
}

impl<'a> CandidateEdits<'a> {
    /// The word being completed, as a byte range.
    pub open spec fn word_view(&self) -> (int, int) {
        (self.word.start as int, self.word.end as int)
    }

    fn quoter(&self) -> (r: Quoter)
        ensures
            r.open_quote == self.open_quote,
            r.quote_file_names == !self.options@.contains(CompleteOption::NoQuote),
    {
        Quoter { open_quote: self.open_quote, quote_file_names: !self.options.get(CompleteOption::NoQuote) }
    }

    /// Returns the text of the line in the byte range `a..b`, if both are char boundaries
    /// in order.
    fn slice(&self, a: usize, b: usize) -> (r: Option<String>)
        requires
            text_width(self.line@) <= usize::MAX,
        ensures
            super::opt_text(r) == line_slice(self.line@, a as int, b as int),
    {
        let v = text::chars_of(self.line);
        match (char_position(&v, a), char_position(&v, b)) {
            (Some(ka), Some(kb)) => {
                if a <= b {
                    proof {
                        lemma_chars_before_mono(self.line@, a as int, b as int);
                    }
                    Some(text::string_of(&v, ka, kb))
                } else {
                    None
                }
            },
            _ => None,
        }
    }

    /// Returns the edit that completes the word to `prefix`, the candidates' common prefix,
    /// if it's not empty and would change the line. Like readline, it's quoted, but its
    /// quote is left open.
    pub fn partial_edit(&self, prefix: &ResolvedCandidate) -> (r: Option<Edit>)
        requires
            text_width(self.line@) <= usize::MAX,
        ensures
            opt_edit_view(r) == partial_edit_of(self.line@, self.word_view(), self.open_quote, self.options@, prefix@),
    {
        let text = self.quoter().quote(prefix, false).text;
        if prefix.text.as_str().is_empty() {
            return None;
        }
        match self.slice(self.word.start, self.word.end) {
            Some(current) => {
                if text::str_eq(current.as_str(), text.as_str()) {
                    return None;
                }
            },
            None => {},
        }
        Some(Edit { replace: self.word.start..self.word.end, text })
    }

    /// Returns the char of the line at the byte offset `b`, if it's a char boundary before
    /// its end.
    fn char_at(&self, b: usize) -> (r: Option<char>)
        requires
            text_width(self.line@) <= usize::MAX,
        ensures
            r == char_at_byte(self.line@, b as int),
    {
        let v = text::chars_of(self.line);
        match char_position(&v, b) {
            Some(k) => if k < v.len() {
                Some(text::char_at(&v, k))
            } else {
                None
            },
            None => None,
        }
    }

    /// Returns `candidate` as a candidate that completes the word.
    ///
    /// Like readline, a directory is marked with a trailing slash, if so configured. The
    /// completed word keeps the quote it's in: a candidate that needed quoting there closes
    /// it, in place of a closing quote the user already typed; anything else closes it only
    /// at the end of the line, and not after a directory, so it can be completed further.
    /// At the end of the line, a space follows, unless the spec said not to
    /// ([`CompleteOption::NoSpace`]) or the candidate is a directory.
    pub fn candidate(&self, candidate: &ResolvedCandidate) -> (r: Candidate)
        requires
            text_width(self.line@) <= usize::MAX,
        ensures
            candidate_made(self.line@, self.word_view(), self.open_quote, self.options@,
                self.prefs.mark_directories, candidate@, r),
    {
        let next_char = self.char_at(self.word.end);
        let at_end_of_line = next_char.is_none();
        let is_dir = match candidate.kind {
            CandidateKind::FileName { is_dir } => is_dir,
            CandidateKind::Other => false,
        };
        let quoted = self.quoter().quote(candidate, is_dir && self.prefs.mark_directories);
        let mut end = self.word.end;
        let mut text = match quoted.closed {
            Some(closed) => {
                if let Some(q) = self.open_quote {
                    if next_char == Some(q.as_char()) {
                        proof {
                            let s = self.line@;
                            let k = chars_before(s, self.word.end as int);
                            assert(0 <= k < s.len() && byte_at(s, k) == self.word.end);
                            quoting::lemma_byte_at_next(s, k);
                            lemma_byte_at_mono(s, k + 1, s.len() as int);
                        }
                        end = end + 1;
                    }
                }
                closed
            },
            None => {
                let mut text = quoted.text;
                if let Some(q) = self.open_quote {
                    if at_end_of_line && !is_dir {
                        text::push_char(&mut text, q.as_char());
                    }
                }
                text
            },
        };
        if at_end_of_line && !is_dir && !self.options.get(CompleteOption::NoSpace) {
            text::push_char(&mut text, ' ');
        }
        Candidate {
            kind: candidate.kind,
            value: candidate.text.clone(),
            edit: Edit { replace: self.word.start..end, text },
        }
    }

    /// Returns the completions of the word with `candidates`, without duplicates.
    pub fn completions(&self, candidates: Vec<ResolvedCandidate>) -> (r: Completions)
        requires
            text_width(self.line@) <= usize::MAX,
        ensures
            ({
                let u = unique_views(views(candidates@));
                &&& r.candidates@.len() == u.len()
                &&& forall|i: int| 0 <= i < u.len() ==> candidate_made(self.line@, self.word_view(),
                    self.open_quote, self.options@, self.prefs.mark_directories, u[i], #[trigger] r.candidates@[i])
                &&& opt_edit_view(r.common_prefix) == if u.len() > 1 {
                    partial_edit_of(self.line@, self.word_view(), self.open_quote, self.options@, prefix_candidate(u))
                } else {
                    None
                }
            }),
    {
        let ghost cs = views(candidates@);
        let mut unique: Vec<ResolvedCandidate> = Vec::new();
        let mut i: usize = 0;
        while i < candidates.len()
            invariant
                cs == views(candidates@),
                i <= candidates@.len(),
                views(unique@) == unique_views(cs.take(i as int)),
            decreases candidates@.len() - i,
        {
            let mut seen = false;
            let mut j: usize = 0;
            while j < unique.len()
                invariant
                    j <= unique@.len(),
                    i < candidates@.len(),
                    seen == exists|l: int| 0 <= l < j && unique@[l]@ == candidates@[i as int]@,
                decreases unique@.len() - j,
            {
                if same_candidate(&unique[j], &candidates[i]) {
                    seen = true;
                }
                j = j + 1;
            }
            proof {
                assert(cs.take(i + 1).drop_last() == cs.take(i as int));
                assert(cs.take(i + 1).last() == candidates@[i as int]@);
                assert(views(unique@).contains(candidates@[i as int]@) == seen) by {
                    if seen {
                        let l = choose|l: int| 0 <= l < unique@.len() && unique@[l]@ == candidates@[i as int]@;
                        assert(views(unique@)[l] == candidates@[i as int]@);
                    }
                    if views(unique@).contains(candidates@[i as int]@) {
                        let l = choose|l: int| 0 <= l < views(unique@).len() && views(unique@)[l] == candidates@[i as int]@;
                        assert(unique@[l]@ == candidates@[i as int]@);
                    }
                }
            }
            if !seen {
                let c = copy_candidate(&candidates[i]);
                unique.push(c);
                proof {
                    assert(views(unique@) =~= unique_views(cs.take(i as int)).push(candidates@[i as int]@));
                }
            }
            i = i + 1;
        }
        proof {
            assert(cs.take(candidates@.len() as int) == cs);
        }
        let common_prefix = if unique.len() > 1 {
            let prefix = common_prefix(unique.as_slice());
            self.partial_edit(&prefix)
        } else {
            None
        };
        let mut made: Vec<Candidate> = Vec::new();
        let mut k: usize = 0;
        while k < unique.len()
            invariant
                text_width(self.line@) <= usize::MAX,
                k <= unique@.len(),
                made@.len() == k,
                forall|l: int| 0 <= l < k ==> candidate_made(self.line@, self.word_view(), self.open_quote,
                    self.options@, self.prefs.mark_directories, unique@[l]@, #[trigger] made@[l]),
            decreases unique@.len() - k,
        {
            let c = self.candidate(&unique[k]);
            made.push(c);
            k = k + 1;
        }
        proof {
            assert forall|l: int| 0 <= l < unique@.len() implies views(unique@)[l] == unique@[l]@ by {}
        }
        Completions { candidates: made, common_prefix }
    }
}

} // verus!
