//! What generating candidates needs of the line being completed: the arguments and
//! `COMP_*` variables a completion function or command is told about it, matching names
//! against the word, and a `complete -X` filter pattern's stand-ins for the word.

use vstd::prelude::*;

use super::words::{texts, LineWords};
use crate::text;
use crate::variables::{literal_pairs, ArrayLiteral, LiteralView, ShellValueLiteral};

verus! {

/// Whether `p` begins `s`.
pub open spec fn starts_with(s: Seq<char>, p: Seq<char>) -> bool {
    p.len() <= s.len() && s.take(p.len() as int) == p
}

/// The `names` that start with `prefix`, in order.
pub open spec fn matching(names: Seq<Seq<char>>, prefix: Seq<char>) -> Seq<Seq<char>>
    decreases names.len(),
{
    if names.len() == 0 {
        Seq::empty()
    } else if starts_with(names.last(), prefix) {
        matching(names.drop_last(), prefix).push(names.last())
    } else {
        matching(names.drop_last(), prefix)
    }
}

/// A name is among those of `ns` that start with `prefix` exactly when it is among `ns`
/// and starts with `prefix`; and they hold no name twice if `ns` does not.
pub proof fn lemma_matching_members(ns: Seq<Seq<char>>, prefix: Seq<char>)
    ensures
        forall|n: Seq<char>| #[trigger] matching(ns, prefix).contains(n) <==> ns.contains(n) && starts_with(n, prefix),
        ns.no_duplicates() ==> matching(ns, prefix).no_duplicates(),
    decreases ns.len(),
{
    if ns.len() > 0 {
        let init = ns.drop_last();
        lemma_matching_members(init, prefix);
        assert(ns =~= init.push(ns.last()));
        let m = matching(init, prefix);
        assert forall|n: Seq<char>| #[trigger] matching(ns, prefix).contains(n) implies ns.contains(n) && starts_with(n, prefix) by {
            if starts_with(ns.last(), prefix) {
                let k = choose|k: int| 0 <= k < m.push(ns.last()).len() && m.push(ns.last())[k] == n;
                if k < m.len() {
                    assert(m[k] == n);
                    assert(m.contains(n));
                    let i = choose|i: int| 0 <= i < init.len() && init[i] == n;
                    assert(ns[i] == n);
                } else {
                    assert(ns[ns.len() - 1] == n);
                }
            } else {
                assert(m.contains(n));
                let i = choose|i: int| 0 <= i < init.len() && init[i] == n;
                assert(ns[i] == n);
            }
        }
        assert forall|n: Seq<char>| ns.contains(n) && starts_with(n, prefix) implies #[trigger] matching(ns, prefix).contains(n) by {
            let i = choose|i: int| 0 <= i < ns.len() && ns[i] == n;
            if i == ns.len() - 1 {
                assert(m.push(ns.last())[m.len() as int] == n);
            } else {
                assert(init[i] == n);
                assert(init.contains(n));
                assert(m.contains(n));
                let k = choose|k: int| 0 <= k < m.len() && m[k] == n;
                if starts_with(ns.last(), prefix) {
                    assert(m.push(ns.last())[k] == n);
                }
            }
        }
        if ns.no_duplicates() && starts_with(ns.last(), prefix) {
            assert(init.no_duplicates()) by {
                assert forall|i: int, j: int| 0 <= i < init.len() && 0 <= j < init.len() && i != j implies init[i] != init[j] by {
                    assert(ns[i] == init[i] && ns[j] == init[j]);
                }
            }
            assert(!init.contains(ns.last())) by {
                if init.contains(ns.last()) {
                    let i = choose|i: int| 0 <= i < init.len() && init[i] == ns.last();
                    assert(ns[i] == ns[ns.len() - 1]);
                }
            }
            assert(!matching(init, prefix).contains(ns.last()));
        } else if ns.no_duplicates() {
            assert(init.no_duplicates()) by {
                assert forall|i: int, j: int| 0 <= i < init.len() && 0 <= j < init.len() && i != j implies init[i] != init[j] by {
                    assert(ns[i] == init[i] && ns[j] == init[j]);
                }
            }
        }
    }
}


/// Returns whether `p` begins `s`.
pub fn text_starts_with(s: &str, p: &str) -> (r: bool)
    ensures
        r == starts_with(s@, p@),
{
    let sv = text::chars_of(s);
    let pv = text::chars_of(p);
    if pv.len() > sv.len() {
        return false;
    }
    let mut i: usize = 0;
    while i < pv.len()
        invariant
            sv@ == s@,
            pv@ == p@,
            pv@.len() <= sv@.len(),
            i <= pv@.len(),
            forall|j: int| 0 <= j < i ==> sv@[j] == pv@[j],
        decreases pv@.len() - i,
    {
        if sv[i] != pv[i] {
            proof {
                assert(sv@.take(pv@.len() as int)[i as int] != pv@[i as int]);
            }
            return false;
        }
        i = i + 1;
    }
    proof {
        assert(sv@.take(pv@.len() as int) =~= pv@);
    }
    true
}

/// Adds the `names` that start with `prefix` to `candidates`.
pub fn extend_matching(candidates: &mut Vec<String>, names: &[&str], prefix: &str)
    ensures
        texts(final(candidates)@) == texts(old(candidates)@) + matching(names@.map_values(|n: &str| n@), prefix@),
{
    let ghost ns = names@.map_values(|n: &str| n@);
    let ghost start = texts(candidates@);
    let mut i: usize = 0;
    while i < names.len()
        invariant
            ns == names@.map_values(|n: &str| n@),
            i <= names@.len(),
            texts(candidates@) == start + matching(ns.take(i as int), prefix@),
        decreases names@.len() - i,
    {
        proof {
            assert(ns.take(i + 1).drop_last() == ns.take(i as int));
            assert(ns.take(i + 1).last() == names@[i as int]@);
        }
        if text_starts_with(names[i], prefix) {
            let ghost before = candidates@;
            candidates.push(names[i].to_owned());
            proof {
                assert(texts(candidates@) =~= texts(before).push(names@[i as int]@));
            }
        }
        i = i + 1;
    }
    proof {
        assert(ns.take(names@.len() as int) == ns);
    }
}

/// Whether the `i`-th char of `s` is escaped by a backslash before it (one that isn't
/// escaped itself).
pub open spec fn escaped_at(s: Seq<char>, i: int) -> bool
    decreases i,
{
    if i <= 0 {
        false
    } else {
        !escaped_at(s, i - 1) && s[i - 1] == '\\'
    }
}

/// `pattern`, a `complete -X` filter pattern, with each unescaped `&` replaced with
/// `replacement`.
pub open spec fn ampersands_replaced(pattern: Seq<char>, replacement: Seq<char>) -> Seq<char>
    decreases pattern.len(),
{
    if pattern.len() == 0 {
        Seq::empty()
    } else {
        let i = pattern.len() - 1;
        ampersands_replaced(pattern.drop_last(), replacement) + if !escaped_at(pattern, i) && pattern[i] == '&' {
            replacement
        } else {
            seq![pattern[i]]
        }
    }
}

proof fn lemma_escaped_at_prefix(s: Seq<char>, n: int, i: int)
    requires
        0 <= i <= n <= s.len(),
    ensures
        escaped_at(s.take(n), i) == escaped_at(s, i),
    decreases i,
{
    if i > 0 {
        lemma_escaped_at_prefix(s, n, i - 1);
    }
}

/// Returns `pattern` with each unescaped `&` replaced with `replacement`.
pub fn replace_unescaped_ampersands(pattern: &str, replacement: &str) -> (r: String)
    ensures
        r@ == ampersands_replaced(pattern@, replacement@),
{
    let v = text::chars_of(pattern);
    let mut out = String::new();
    let mut in_escape = false;
    let mut i: usize = 0;
    while i < v.len()
        invariant
            v@ == pattern@,
            i <= v@.len(),
            in_escape == escaped_at(v@, i as int),
            out@ == ampersands_replaced(v@.take(i as int), replacement@),
        decreases v@.len() - i,
    {
        let c = text::char_at(&v, i);
        proof {
            assert(v@.take(i + 1).drop_last() == v@.take(i as int));
            lemma_escaped_at_prefix(v@, i + 1, i as int);
        }
        if !in_escape && c == '&' {
            text::push_str(&mut out, replacement);
        } else {
            text::push_char(&mut out, c);
        }
        in_escape = !in_escape && c == '\\';
        i = i + 1;
    }
    proof {
        assert(v@.take(v@.len() as int) == v@);
    }
    out
}

/// A line being completed, which a completion function or command is told about in its
/// arguments and the `COMP_*` variables.
pub struct LineContext<'a> {
    /// The line (`COMP_LINE`).
    pub input: &'a str,
    /// The cursor's byte offset in the line (`COMP_POINT`).
    pub cursor: usize,
    /// The words of `COMP_WORDS`, and which the cursor is in (`COMP_CWORD`).
    pub words: &'a LineWords,
    /// The name of the command being completed for (`$1`): the first word or, for the
    /// empty-line and initial-word specs, bash's names for them.
    pub command_name: Option<&'a str>,
    /// The kind of completion (`COMP_TYPE`), as bash's char code for it (e.g. Tab for
    /// normal completion), or 0 for `compgen`.
    pub comp_type: u8,
    /// The key that triggered completion (`COMP_KEY`), or 0 for `compgen`.
    pub comp_key: u8,
}

/// The text of an optional text, empty if there's none.
pub open spec fn text_or_empty(o: Option<&str>) -> Seq<char> {
    match o {
        Some(s) => s@,
        None => Seq::empty(),
    }
}

impl<'a> LineContext<'a> {
    /// Returns the line `input`, being completed at `cursor`, whose words are `words`, as
    /// normal completion (Tab) completes it for its first word's command.
    pub fn new(input: &'a str, cursor: usize, words: &'a LineWords) -> (r: Self)
        ensures
            r.input == input,
            r.cursor == cursor,
            r.words == words,
            match r.command_name {
                Some(c) => words.comp_words@.len() > 0 && c@ == words.comp_words@[0]@,
                None => words.comp_words@.len() == 0,
            },
            r.comp_type == 9,
            r.comp_key == 9,
    {
        LineContext { input, cursor, words, command_name: words.command_name(), comp_type: 9, comp_key: 9 }
    }

    /// Returns the arguments a completion function or command gets for completing `word`:
    /// like bash, the command name, the word, and the word before it, each empty if
    /// there's none.
    pub fn args(&self, word: &'a str) -> (r: [&'a str; 3])
        ensures
            r[0]@ == text_or_empty(self.command_name),
            r[1] == word,
            match self.words.cword {
                None => r[2]@.len() == 0,
                Some(i) => {
                    let j = if i == 0 { 0 } else { i - 1 };
                    r[2]@ == if j < self.words.comp_words@.len() { self.words.comp_words@[j as int]@ } else { Seq::empty() }
                },
            },
    {
        let empty = "";
        proof {
            reveal_strlit("");
        }
        let command = match self.command_name {
            Some(c) => c,
            None => empty,
        };
        let preceding = match self.words.preceding_word() {
            Some(w) => w,
            None => empty,
        };
        [command, word, preceding]
    }

    /// Returns the `COMP_*` variables that describe the line to a completion function or
    /// command, except for `COMP_WORDS` and `COMP_CWORD`: `COMP_LINE`, `COMP_POINT`,
    /// `COMP_KEY` and `COMP_TYPE`.
    pub fn comp_vars(&self) -> (r: Vec<(&'static str, ShellValueLiteral)>)
        ensures
            r@.len() == 4,
            r@[0].0@ == "COMP_LINE"@ && r@[0].1@ == LiteralView::Scalar(self.input@),
            r@[1].0@ == "COMP_POINT"@ && r@[1].1@ == LiteralView::Scalar(text::decimal_text(self.cursor as nat)),
            r@[2].0@ == "COMP_KEY"@ && r@[2].1@ == LiteralView::Scalar(text::decimal_text(self.comp_key as nat)),
            r@[3].0@ == "COMP_TYPE"@ && r@[3].1@ == LiteralView::Scalar(text::decimal_text(self.comp_type as nat)),
    {
        let mut vars: Vec<(&'static str, ShellValueLiteral)> = Vec::new();
        vars.push(("COMP_LINE", ShellValueLiteral::Scalar(self.input.to_owned())));
        vars.push(("COMP_POINT", ShellValueLiteral::Scalar(text::decimal_string(self.cursor as u64))));
        vars.push(("COMP_KEY", ShellValueLiteral::Scalar(text::decimal_string(self.comp_key as u64))));
        vars.push(("COMP_TYPE", ShellValueLiteral::Scalar(text::decimal_string(self.comp_type as u64))));
        vars
    }

    /// Returns the `COMP_WORDS` and `COMP_CWORD` variables, which only completion
    /// functions get: the words as an array, and the index of the cursor's word (`-1` if
    /// there are no words).
    pub fn comp_words_vars(&self) -> (r: [(&'static str, ShellValueLiteral); 2])
        ensures
            r[0].0@ == "COMP_WORDS"@,
            r[0].1@ == LiteralView::Array(
                texts(self.words.comp_words@).map_values(|w: Seq<char>| (None::<Seq<char>>, w)),
            ),
            r[1].0@ == "COMP_CWORD"@,
            r[1].1@ == LiteralView::Scalar(match self.words.cword {
                Some(i) => text::decimal_text(i as nat),
                None => seq!['-', '1'],
            }),
    {
        let mut elements: Vec<(Option<String>, String)> = Vec::new();
        let mut i: usize = 0;
        while i < self.words.comp_words.len()
            invariant
                i <= self.words.comp_words@.len(),
                elements@.len() == i,
                literal_pairs(elements@) == texts(self.words.comp_words@.take(i as int)).map_values(
                    |w: Seq<char>| (None::<Seq<char>>, w),
                ),
            decreases self.words.comp_words@.len() - i,
        {
            let ghost before = elements@;
            let word = self.words.comp_words[i].clone();
            assert(word@ == self.words.comp_words@[i as int]@);
            elements.push((None, word));
            proof {
                let ws = self.words.comp_words@;
                let want = texts(ws.take(i + 1)).map_values(|w: Seq<char>| (None::<Seq<char>>, w));
                let had = texts(ws.take(i as int)).map_values(|w: Seq<char>| (None::<Seq<char>>, w));
                assert(literal_pairs(before) == had);
                assert forall|j: int| 0 <= j < i + 1 implies literal_pairs(elements@)[j] == want[j] by {
                    if j < i {
                        assert(literal_pairs(elements@)[j] == literal_pairs(before)[j]);
                        assert(had[j] == want[j]);
                    } else {
                        assert(elements@[j].0 is None && elements@[j].1@ == ws[i as int]@);
                    }
                }
                assert(literal_pairs(elements@) =~= want);
            }
            i = i + 1;
        }
        proof {
            assert(self.words.comp_words@.take(self.words.comp_words@.len() as int) == self.words.comp_words@);
        }
        let cword = match self.words.cword {
            Some(i) => text::decimal_string(i as u64),
            None => {
                let mut s = String::new();
                text::push_char(&mut s, '-');
                text::push_char(&mut s, '1');
                proof {
                    assert(s@ =~= seq!['-', '1']);
                }
                s
            },
        };
        [
            ("COMP_WORDS", ShellValueLiteral::Array(ArrayLiteral(elements))),
            ("COMP_CWORD", ShellValueLiteral::Scalar(cword)),
        ]
    }
}

/// The chars readline breaks words on when `COMP_WORDBREAKS` is not set.
pub open spec fn fallback_word_breaks() -> Seq<char> {
    seq![' ', '\t', '\n', '"', '\'', '@', '>', '<', '=', ';', '|', '&', '(', ':']
}

/// Returns the chars completion breaks words on: those of `comp_wordbreaks`, the value of
/// `COMP_WORDBREAKS`, if it is set, or else readline's defaults.
pub fn word_break_chars(comp_wordbreaks: Option<&str>) -> (r: Vec<char>)
    ensures
        r@ == match comp_wordbreaks {
            Some(s) => s@,
            None => fallback_word_breaks(),
        },
{
    match comp_wordbreaks {
        Some(s) => text::chars_of(s),
        None => {
            let fallback = " \t\n\"\'@><=;|&(:";
            proof {
                reveal_strlit(" \t\n\"\'@><=;|&(:");
            }
            let r = text::chars_of(fallback);
            proof {
                assert(r@ =~= fallback_word_breaks());
            }
            r
        },
    }
}

/// The name prefix of a variable reference being typed, and whether it is braced: `$HO`
/// gives `HO`, `${HO` gives `HO` (unless a `}` closed the brace already); other words give
/// none.
pub open spec fn variable_prefix(word: Seq<char>) -> Option<(Seq<char>, bool)> {
    if word.len() >= 2 && word[0] == '$' && word[1] == '{' {
        if word.skip(2).contains('}') {
            None
        } else {
            Some((word.skip(2), true))
        }
    } else if word.len() >= 1 && word[0] == '$' {
        Some((word.skip(1), false))
    } else {
        None
    }
}

/// A reference to the variable `name`: `${name}` if braced, else `$name`.
pub open spec fn variable_reference(name: Seq<char>, braced: bool) -> Seq<char> {
    if braced {
        seq!['$', '{'] + name + seq!['}']
    } else {
        seq!['$'] + name
    }
}

/// The references that complete a variable reference `word` being typed, given the names
/// of the variables set: `None` if `word` is not such a reference, or is a path through
/// one (it has a `/`); else the references to the names that start with its prefix.
pub open spec fn variable_candidates(word: Seq<char>, names: Seq<Seq<char>>) -> Option<Seq<Seq<char>>> {
    match variable_prefix(word) {
        None => None,
        Some((prefix, braced)) => if prefix.contains('/') {
            None
        } else {
            Some(matching(names, prefix).map_values(|n: Seq<char>| variable_reference(n, braced)))
        },
    }
}

/// Completes a variable name, if `word` is a variable reference being typed (e.g. `$HO` or
/// `${HO`), from the names of the variables set: the references to those that match, in
/// sorted order (see [`variable_candidates`]); otherwise, returns `None`.
pub fn variable_completions(word: &str, names: &[&str]) -> (r: Option<Vec<String>>)
    ensures
        r is Some <==> variable_candidates(word@, names@.map_values(|n: &str| n@)) is Some,
        r matches Some(c) ==> forall|x: Seq<char>| #[trigger] texts(c@).contains(x) <==> variable_candidates(
            word@,
            names@.map_values(|n: &str| n@),
        ).unwrap().contains(x),
        r matches Some(c) ==> crate::sorting::in_order(texts(c@)) && texts(c@).to_multiset() == variable_candidates(
            word@,
            names@.map_values(|n: &str| n@),
        ).unwrap().to_multiset(),
{
    let v = text::chars_of(word);
    let braced: bool;
    let start: usize;
    if v.len() >= 2 && text::char_at(&v, 0) == '$' && text::char_at(&v, 1) == '{' {
        braced = true;
        start = 2;
    } else if v.len() >= 1 && text::char_at(&v, 0) == '$' {
        braced = false;
        start = 1;
    } else {
        return None;
    }
    let prefix = text::string_of(&v, start, v.len());
    proof {
        assert(prefix@ =~= word@.skip(start as int));
    }
    if braced && text::str_contains_char(prefix.as_str(), '}') {
        return None;
    }
    if text::str_contains_char(prefix.as_str(), '/') {
        return None;
    }
    let mut matched: Vec<String> = Vec::new();
    extend_matching(&mut matched, names, prefix.as_str());
    proof {
        assert(texts(Seq::<String>::empty()) =~= Seq::<Seq<char>>::empty());
        assert(Seq::<Seq<char>>::empty() + matching(names@.map_values(|n: &str| n@), prefix@) =~= matching(
            names@.map_values(|n: &str| n@),
            prefix@,
        ));
    }
    let ghost m = texts(matched@);
    let mut refs: Vec<String> = Vec::new();
    let mut i: usize = 0;
    while i < matched.len()
        invariant
            m == texts(matched@),
            i <= matched@.len(),
            texts(refs@) == m.take(i as int).map_values(|n: Seq<char>| variable_reference(n, braced)),
        decreases matched@.len() - i,
    {
        let mut r = String::new();
        text::push_char(&mut r, '$');
        if braced {
            text::push_char(&mut r, '{');
        }
        text::push_str(&mut r, matched[i].as_str());
        if braced {
            text::push_char(&mut r, '}');
        }
        proof {
            assert(m[i as int] == matched@[i as int]@);
            assert(r@ =~= variable_reference(m[i as int], braced));
            assert(texts(refs@.push(r)) =~= texts(refs@).push(r@));
            assert(m.take(i + 1).map_values(|n: Seq<char>| variable_reference(n, braced)) =~= m.take(i as int).map_values(
                |n: Seq<char>| variable_reference(n, braced),
            ).push(variable_reference(m[i as int], braced)));
        }
        refs.push(r);
        i = i + 1;
    }
    proof {
        assert(m.take(m.len() as int) == m);
    }
    let sorted = crate::sorting::sorted_strings(refs);
    proof {
        let c = variable_candidates(word@, names@.map_values(|n: &str| n@)).unwrap();
        assert forall|x: Seq<char>| #[trigger] texts(sorted@).contains(x) <==> c.contains(x) by {
            texts(sorted@).to_multiset_ensures();
            c.to_multiset_ensures();
            assert(texts(sorted@).to_multiset().count(x) == c.to_multiset().count(x));
        }
    }
    Some(sorted)
}

/// The variable references that complete `word` are the references, braced as `word` is,
/// to exactly the given names that start with the name part of `word`.
pub proof fn law_variable_candidates_members(word: Seq<char>, names: Seq<Seq<char>>, x: Seq<char>)
    requires
        variable_candidates(word, names) is Some,
    ensures
        ({
            let (prefix, braced) = variable_prefix(word)->0;
            variable_candidates(word, names)->0.contains(x) <==> exists|k: Seq<char>|
                #![trigger names.contains(k), variable_reference(k, braced)]
                names.contains(k) && starts_with(k, prefix) && x == variable_reference(k, braced)
        }),
{
    let (prefix, braced) = variable_prefix(word)->0;
    let m = matching(names, prefix);
    let c = m.map_values(|n: Seq<char>| variable_reference(n, braced));
    assert(variable_candidates(word, names)->0 == c);
    lemma_matching_members(names, prefix);
    if c.contains(x) {
        let i = choose|i: int| 0 <= i < c.len() && c[i] == x;
        assert(m.contains(m[i]));
        assert(names.contains(m[i]) && starts_with(m[i], prefix));
        assert(x == variable_reference(m[i], braced));
    }
    if exists|k: Seq<char>| #![trigger names.contains(k), variable_reference(k, braced)]
        names.contains(k) && starts_with(k, prefix) && x == variable_reference(k, braced) {
        let k = choose|k: Seq<char>| #![trigger names.contains(k), variable_reference(k, braced)]
            names.contains(k) && starts_with(k, prefix) && x == variable_reference(k, braced);
        assert(m.contains(k));
        let i = choose|i: int| 0 <= i < m.len() && m[i] == k;
        assert(c[i] == x);
    }
}

} // verus!
