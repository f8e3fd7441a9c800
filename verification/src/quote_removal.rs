//! The shell's quote removal, as the meaning of quoted text: backslashes, single quotes
//! and double quotes are read as the shell reads them in a word, and what they quote is
//! kept. Quoting text in any of the quoting modes gives text that quote removal turns
//! back into the original.

use vstd::prelude::*;

use crate::escape::{
    backslash_escaped, double_quote_body, is_control, quoted, QuoteOptions, double_quoted_leaving, is_double_quote_special, is_special, join_single_quoted,
    quoted_in, single_quoted, single_quoted_part, split_on, QuoteMode,
};

verus! {

/// Where quote removal stands between two chars.
#[derive(Clone, Copy, Debug, PartialEq, Eq, Structural)]
pub enum QuoteState {
    /// Outside quotes.
    Unquoted,
    /// Right after a backslash outside quotes.
    UnquotedEscaped,
    /// Inside single quotes.
    Single,
    /// Inside double quotes.
    Double,
    /// Right after a backslash inside double quotes.
    DoubleEscaped,
}

/// One char of quote removal: what it adds to the result, and the state after it. Outside
/// quotes, a backslash quotes the next char (a newline after it is dropped); in single
/// quotes everything up to the closing quote is kept; in double quotes, a backslash quotes
/// `$`, `` ` ``, `"`, `\` and drops a newline, and is kept before any other char.
pub open spec fn removal_step(st: QuoteState, c: char) -> (Seq<char>, QuoteState) {
    match st {
        QuoteState::Unquoted => if c == '\\' {
            (Seq::empty(), QuoteState::UnquotedEscaped)
        } else if c == '\'' {
            (Seq::empty(), QuoteState::Single)
        } else if c == '"' {
            (Seq::empty(), QuoteState::Double)
        } else {
            (seq![c], QuoteState::Unquoted)
        },
        QuoteState::UnquotedEscaped => if c == '\n' {
            (Seq::empty(), QuoteState::Unquoted)
        } else {
            (seq![c], QuoteState::Unquoted)
        },
        QuoteState::Single => if c == '\'' {
            (Seq::empty(), QuoteState::Unquoted)
        } else {
            (seq![c], QuoteState::Single)
        },
        QuoteState::Double => if c == '"' {
            (Seq::empty(), QuoteState::Unquoted)
        } else if c == '\\' {
            (Seq::empty(), QuoteState::DoubleEscaped)
        } else {
            (seq![c], QuoteState::Double)
        },
        QuoteState::DoubleEscaped => if is_double_quote_special(c) {
            (seq![c], QuoteState::Double)
        } else if c == '\n' {
            (Seq::empty(), QuoteState::Double)
        } else {
            (seq!['\\', c], QuoteState::Double)
        },
    }
}

/// Quote removal over the chars `t`, from the state `st`: what it keeps, and the state
/// after them.
pub open spec fn removal_run(t: Seq<char>, st: QuoteState) -> (Seq<char>, QuoteState)
    decreases t.len(),
{
    if t.len() == 0 {
        (Seq::empty(), st)
    } else {
        let prev = removal_run(t.drop_last(), st);
        let step = removal_step(prev.1, t.last());
        (prev.0 + step.0, step.1)
    }
}

/// The text that the word `t` stands for once its quotes are removed, if it leaves no
/// quote or escape open.
pub open spec fn quotes_removed(t: Seq<char>) -> Option<Seq<char>> {
    let r = removal_run(t, QuoteState::Unquoted);
    if r.1 == QuoteState::Unquoted {
        Some(r.0)
    } else {
        None
    }
}

proof fn lemma_run_concat(a: Seq<char>, b: Seq<char>, st: QuoteState)
    ensures
        removal_run(a + b, st) == (removal_run(a, st).0 + removal_run(b, removal_run(a, st).1).0, removal_run(
            b,
            removal_run(a, st).1,
        ).1),
    decreases b.len(),
{
    let ra = removal_run(a, st);
    if b.len() == 0 {
        assert(a + b =~= a);
        assert(ra.0 + Seq::<char>::empty() =~= ra.0);
    } else {
        lemma_run_concat(a, b.drop_last(), st);
        assert((a + b).drop_last() =~= a + b.drop_last());
        assert((a + b).last() == b.last());
        let rb = removal_run(b.drop_last(), ra.1);
        let step = removal_step(rb.1, b.last());
        assert(ra.0 + rb.0 + step.0 =~= ra.0 + (rb.0 + step.0));
    }
}

proof fn lemma_run_pair(c1: char, c2: char, st: QuoteState)
    ensures
        removal_run(seq![c1, c2], st) == ({
            let s1 = removal_step(st, c1);
            let s2 = removal_step(s1.1, c2);
            (s1.0 + s2.0, s2.1)
        }),
{
    reveal_with_fuel(removal_run, 3);
    assert(seq![c1, c2].drop_last() =~= seq![c1]);
    assert(seq![c1, c2].last() == c2);
    assert(seq![c1].drop_last() =~= Seq::<char>::empty());
    assert(seq![c1].last() == c1);
    assert(removal_run(Seq::<char>::empty(), st) == (Seq::<char>::empty(), st));
    assert(Seq::<char>::empty() + removal_step(st, c1).0 =~= removal_step(st, c1).0);
}

proof fn lemma_run_single(c: char, st: QuoteState)
    ensures
        removal_run(seq![c], st) == removal_step(st, c),
{
    reveal_with_fuel(removal_run, 2);
    assert(seq![c].drop_last() =~= Seq::<char>::empty());
    assert(seq![c].last() == c);
    assert(removal_run(Seq::<char>::empty(), st) == (Seq::<char>::empty(), st));
    assert(Seq::<char>::empty() + removal_step(st, c).0 =~= removal_step(st, c).0);
}

proof fn lemma_backslash_run(s: Seq<char>)
    ensures
        removal_run(backslash_escaped(s), QuoteState::Unquoted) == (s, QuoteState::Unquoted),
    decreases s.len(),
{
    if s.len() == 0 {
        assert(backslash_escaped(s) =~= Seq::<char>::empty());
    } else {
        let c = s.last();
        lemma_backslash_run(s.drop_last());
        let chunk = if is_special(c) { seq!['\\', c] } else { seq![c] };
        lemma_run_concat(backslash_escaped(s.drop_last()), chunk, QuoteState::Unquoted);
        if is_special(c) {
            lemma_run_pair('\\', c, QuoteState::Unquoted);
            assert(Seq::<char>::empty() + seq![c] =~= seq![c]);
        } else {
            lemma_run_single(c, QuoteState::Unquoted);
        }
        assert(s.drop_last() + seq![c] =~= s);
    }
}

proof fn lemma_double_body_run(s: Seq<char>)
    ensures
        removal_run(double_quote_body(s, Seq::empty()), QuoteState::Double) == (s, QuoteState::Double),
    decreases s.len(),
{
    if s.len() == 0 {
        assert(double_quote_body(s, Seq::empty()) =~= Seq::<char>::empty());
    } else {
        let c = s.last();
        lemma_double_body_run(s.drop_last());
        let special = is_double_quote_special(c) && !Seq::<char>::empty().contains(c);
        let chunk = if special { seq!['\\', c] } else { seq![c] };
        lemma_run_concat(double_quote_body(s.drop_last(), Seq::empty()), chunk, QuoteState::Double);
        if special {
            lemma_run_pair('\\', c, QuoteState::Double);
            assert(Seq::<char>::empty() + seq![c] =~= seq![c]);
        } else {
            lemma_run_single(c, QuoteState::Double);
        }
        assert(s.drop_last() + seq![c] =~= s);
    }
}

proof fn lemma_quoted_chars_run(p: Seq<char>)
    requires
        !p.contains('\''),
    ensures
        removal_run(p, QuoteState::Single) == (p, QuoteState::Single),
    decreases p.len(),
{
    if p.len() > 0 {
        assert(!p.drop_last().contains('\'')) by {
            if p.drop_last().contains('\'') {
                let j = choose|j: int| 0 <= j < p.drop_last().len() && p.drop_last()[j] == '\'';
                assert(p[j] == '\'');
            }
        }
        lemma_quoted_chars_run(p.drop_last());
        assert(p.last() != '\'') by {
            assert(p[p.len() - 1] == p.last());
        }
        assert(p.drop_last() + seq![p.last()] =~= p);
    }
}

proof fn lemma_single_part_run(p: Seq<char>)
    requires
        !p.contains('\''),
    ensures
        removal_run(single_quoted_part(p), QuoteState::Unquoted) == (p, QuoteState::Unquoted),
{
    if p.len() == 0 {
        assert(single_quoted_part(p) =~= Seq::<char>::empty());
        assert(p =~= Seq::<char>::empty());
    } else {
        lemma_quoted_chars_run(p);
        lemma_run_concat(seq!['\''], p, QuoteState::Unquoted);
        lemma_run_single('\'', QuoteState::Unquoted);
        lemma_run_concat(seq!['\''] + p, seq!['\''], QuoteState::Unquoted);
        lemma_run_single('\'', QuoteState::Single);
        assert(Seq::<char>::empty() + p =~= p);
        assert(p + Seq::<char>::empty() =~= p);
    }
}

/// The parts joined again by `d`.
pub open spec fn joined_on(parts: Seq<Seq<char>>, d: char) -> Seq<char>
    decreases parts.len(),
{
    if parts.len() == 0 {
        Seq::empty()
    } else if parts.len() == 1 {
        parts[0]
    } else {
        joined_on(parts.drop_last(), d) + seq![d] + parts.last()
    }
}

proof fn lemma_split_on(s: Seq<char>, d: char)
    ensures
        split_on(s, d).len() >= 1,
        joined_on(split_on(s, d), d) == s,
        forall|i: int| 0 <= i < split_on(s, d).len() ==> !(#[trigger] split_on(s, d)[i]).contains(d),
    decreases s.len(),
{
    if s.len() == 0 {
        assert(split_on(s, d) =~= seq![Seq::<char>::empty()]);
        assert(s =~= Seq::<char>::empty());
    } else {
        let init = split_on(s.drop_last(), d);
        lemma_split_on(s.drop_last(), d);
        let c = s.last();
        let parts = split_on(s, d);
        if c == d {
            assert(parts == init.push(Seq::empty()));
            assert(parts.drop_last() =~= init);
            assert(joined_on(parts, d) =~= s.drop_last() + seq![d] + Seq::<char>::empty());
            assert(s.drop_last() + seq![d] + Seq::<char>::empty() =~= s);
            assert forall|i: int| 0 <= i < parts.len() implies !(#[trigger] parts[i]).contains(d) by {
                if i < init.len() {
                    assert(parts[i] == init[i]);
                } else {
                    assert(parts[i] =~= Seq::<char>::empty());
                }
            }
        } else {
            let n = init.len();
            let last = init.last().push(c);
            assert(parts == init.update(n - 1, last));
            assert forall|i: int| 0 <= i < parts.len() implies !(#[trigger] parts[i]).contains(d) by {
                if i < n - 1 {
                    assert(parts[i] == init[i]);
                } else {
                    assert(parts[i] == last);
                    assert(!init[n - 1].contains(d));
                    if last.contains(d) {
                        let j = choose|j: int| 0 <= j < last.len() && last[j] == d;
                        if j < init[n - 1].len() {
                            assert(init[n - 1][j] == d);
                        }
                    }
                }
            }
            if n == 1 {
                assert(joined_on(init, d) == init[0]);
                assert(joined_on(parts, d) == last);
                assert(last =~= s.drop_last() + seq![c]);
            } else {
                assert(parts.drop_last() =~= init.drop_last());
                assert(joined_on(init, d) == joined_on(init.drop_last(), d) + seq![d] + init.last());
                assert(joined_on(parts, d) == joined_on(init.drop_last(), d) + seq![d] + last);
                assert(joined_on(init.drop_last(), d) + seq![d] + init.last().push(c) =~= (joined_on(init.drop_last(), d)
                    + seq![d] + init.last()).push(c));
            }
            assert(s.drop_last().push(c) =~= s);
        }
    }
}

proof fn lemma_join_single_run(parts: Seq<Seq<char>>)
    requires
        forall|i: int| 0 <= i < parts.len() ==> !(#[trigger] parts[i]).contains('\''),
    ensures
        removal_run(join_single_quoted(parts), QuoteState::Unquoted) == (joined_on(parts, '\''), QuoteState::Unquoted),
    decreases parts.len(),
{
    if parts.len() == 0 {
        assert(join_single_quoted(parts) =~= Seq::<char>::empty());
    } else if parts.len() == 1 {
        lemma_single_part_run(parts[0]);
    } else {
        let init = parts.drop_last();
        assert forall|i: int| 0 <= i < init.len() implies !(#[trigger] init[i]).contains('\'') by {
            assert(init[i] == parts[i]);
        }
        lemma_join_single_run(init);
        assert(!parts.last().contains('\'')) by {
            assert(parts.last() == parts[parts.len() - 1]);
        }
        lemma_single_part_run(parts.last());
        let head = join_single_quoted(init) + seq!['\\', '\''];
        lemma_run_concat(join_single_quoted(init), seq!['\\', '\''], QuoteState::Unquoted);
        lemma_run_pair('\\', '\'', QuoteState::Unquoted);
        lemma_run_concat(head, single_quoted_part(parts.last()), QuoteState::Unquoted);
        assert(Seq::<char>::empty() + seq!['\''] =~= seq!['\'']);
    }
}

/// Quoting text in any mode gives a word that stands for the text: quote removal turns
/// it back into the text.
pub proof fn law_quote_removal_undoes_quoting(s: Seq<char>, mode: QuoteMode)
    ensures
        quotes_removed(quoted_in(s, mode)) == Some(s),
{
    match mode {
        QuoteMode::BackslashEscape => {
            lemma_backslash_run(s);
        },
        QuoteMode::DoubleQuote => {
            let body = double_quote_body(s, Seq::empty());
            lemma_double_body_run(s);
            lemma_run_concat(seq!['"'], body, QuoteState::Unquoted);
            lemma_run_single('"', QuoteState::Unquoted);
            lemma_run_concat(seq!['"'] + body, seq!['"'], QuoteState::Unquoted);
            lemma_run_single('"', QuoteState::Double);
            assert(Seq::<char>::empty() + s + Seq::<char>::empty() =~= s);
            assert(double_quoted_leaving(s, Seq::empty()) == seq!['"'] + body + seq!['"']);
        },
        QuoteMode::SingleQuote => {
            if s.len() == 0 {
                lemma_run_pair('\'', '\'', QuoteState::Unquoted);
                assert(s =~= Seq::<char>::empty());
                assert(Seq::<char>::empty() + Seq::<char>::empty() =~= Seq::<char>::empty());
            } else {
                lemma_split_on(s, '\'');
                lemma_join_single_run(split_on(s, '\''));
            }
        },
    }
}

proof fn lemma_plain_run(s: Seq<char>)
    requires
        forall|i: int| 0 <= i < s.len() ==> !is_special(#[trigger] s[i]),
    ensures
        removal_run(s, QuoteState::Unquoted) == (s, QuoteState::Unquoted),
    decreases s.len(),
{
    if s.len() > 0 {
        assert forall|i: int| 0 <= i < s.drop_last().len() implies !is_special(#[trigger] s.drop_last()[i]) by {
            assert(s.drop_last()[i] == s[i]);
        }
        lemma_plain_run(s.drop_last());
        assert(!is_special(s[s.len() - 1]));
        assert(s.drop_last() + seq![s.last()] =~= s);
    }
}

/// Quoting text as `quote` does, unless it has to use ANSI-C quotes (for a control char),
/// gives a word that quote removal turns back into the text.
pub proof fn law_quote_removal_undoes_quote(s: Seq<char>, o: QuoteOptions)
    requires
        !(exists|i: int| 0 <= i < s.len() && is_control(s[i]) && (!o.avoid_ansi_c_quoting_newline || s[i] != '\n')),
    ensures
        quotes_removed(quoted(s, o)) == Some(s),
{
    if o.always_quote || s.len() == 0 || exists|i: int| 0 <= i < s.len() && is_special(s[i]) {
        law_quote_removal_undoes_quoting(s, o.preferred_mode);
    } else {
        lemma_plain_run(s);
    }
}

proof fn lemma_backslash_len(s: Seq<char>)
    ensures
        backslash_escaped(s).len() >= s.len(),
        (exists|i: int| 0 <= i < s.len() && is_special(s[i])) ==> backslash_escaped(s).len() > s.len(),
    decreases s.len(),
{
    if s.len() > 0 {
        lemma_backslash_len(s.drop_last());
        if exists|i: int| 0 <= i < s.len() && is_special(s[i]) {
            let i = choose|i: int| 0 <= i < s.len() && is_special(s[i]);
            if i < s.len() - 1 {
                assert(s.drop_last()[i] == s[i]);
            }
        }
    }
}

proof fn lemma_double_body_len(s: Seq<char>)
    ensures
        double_quote_body(s, Seq::empty()).len() >= s.len(),
    decreases s.len(),
{
    if s.len() > 0 {
        lemma_double_body_len(s.drop_last());
    }
}

proof fn lemma_join_single_len(parts: Seq<Seq<char>>)
    ensures
        join_single_quoted(parts).len() >= joined_on(parts, '\'').len(),
        parts.len() >= 2 || (parts.len() == 1 && parts[0].len() > 0) ==> join_single_quoted(parts).len() > joined_on(
            parts,
            '\'',
        ).len(),
    decreases parts.len(),
{
    if parts.len() >= 2 {
        lemma_join_single_len(parts.drop_last());
    }
}

/// Quoting text that needs it changes it: text with a char that needs escaping (and no
/// control char that would call for ANSI-C quotes, which change it too) is never left as
/// it is, whatever the mode.
pub proof fn law_quote_changes_text_that_needs_it(s: Seq<char>, o: QuoteOptions)
    requires
        !(exists|i: int| 0 <= i < s.len() && is_control(s[i]) && (!o.avoid_ansi_c_quoting_newline || s[i] != '\n')),
        exists|i: int| 0 <= i < s.len() && is_special(s[i]),
    ensures
        quoted(s, o) != s,
{
    assert(quoted(s, o) == quoted_in(s, o.preferred_mode));
    match o.preferred_mode {
        QuoteMode::BackslashEscape => {
            lemma_backslash_len(s);
        },
        QuoteMode::DoubleQuote => {
            lemma_double_body_len(s);
            assert(double_quoted_leaving(s, Seq::empty()).len() == double_quote_body(s, Seq::empty()).len() + 2);
        },
        QuoteMode::SingleQuote => {
            lemma_split_on(s, '\'');
            let parts = split_on(s, '\'');
            lemma_join_single_len(parts);
            if parts.len() == 1 {
                assert(joined_on(parts, '\'') == parts[0]);
            }
        },
    }
}

} // verus!
