//! Expanding a word piece by piece: the word is parsed into pieces, those that need
//! nothing from the shell (literal text, single-quoted text, escapes) expand here, and the
//! others (parameters, tildes, command substitutions, arithmetic, double-quoted
//! sequences) are handed to the caller one at a time; the expansions are then joined.
//! Brace expansion, which comes first, is the caller's.

use vstd::prelude::*;

use super::shape::{coalesce_expansions, coalesced, expansions_view, ExpansionView};
use super::{field_text, Expansion, ExpansionPiece, PieceView, WordField};
use crate::completion::quoting::text_width;
use crate::completion::wordlist::{
    char_index_at_byte, parse_word, parsed_word, span_text, PieceKind, WordParseOptions,
};
use crate::error::{Error, ErrorKind};
use crate::text;

verus! {

/// The expansion of a word piece that is one piece `p`.
pub open spec fn single_piece(p: PieceView) -> ExpansionView {
    ExpansionView { fields: seq![seq![p]], concatenate: true, from_array: false, undefined: false }
}

/// What expanding one piece of a word takes.
#[derive(Debug)]
pub enum PieceAction {
    /// The piece expands to this, with nothing left to do.
    Ready(Expansion),
    /// The piece needs the shell: its kind and its text in the word.
    Expand {
        /// The kind of piece.
        kind: PieceKind,
        /// The piece's text in the word.
        source: String,
    },
}

/// The model of a [`PieceAction`].
pub enum ActionView {
    Ready(ExpansionView),
    Expand { kind: PieceKind, source: Seq<char> },
}

impl PieceAction {
    /// The model of this action.
    pub open spec fn view(&self) -> ActionView {
        match self {
            PieceAction::Ready(e) => ActionView::Ready(e@),
            PieceAction::Expand { kind, source } => ActionView::Expand { kind: *kind, source: source@ },
        }
    }
}

/// The models of a sequence of actions.
pub open spec fn actions_view(s: Seq<PieceAction>) -> Seq<ActionView> {
    s.map_values(|a: PieceAction| a@)
}

/// What expanding a piece of kind `kind` whose text is `t` takes: literal text expands to
/// itself, splittable; single-quoted text to what is inside the quotes, unsplittable; an
/// escape sequence to the char it escapes, unsplittable; any other piece needs the shell.
/// A quoted or escaped piece too short to hold its quotes or backslash has no action.
pub open spec fn piece_action(kind: PieceKind, t: Seq<char>) -> Option<ActionView> {
    match kind {
        PieceKind::Text => Some(ActionView::Ready(single_piece(PieceView::Splittable(t)))),
        PieceKind::SingleQuotedText => if t.len() >= 2 {
            Some(ActionView::Ready(single_piece(PieceView::Unsplittable(t.subrange(1, t.len() - 1)))))
        } else {
            None
        },
        PieceKind::EscapeSequence => if t.len() >= 1 {
            Some(ActionView::Ready(single_piece(PieceView::Unsplittable(t.drop_first()))))
        } else {
            None
        },
        PieceKind::ShellExpansion => Some(ActionView::Expand { kind, source: t }),
    }
}

/// The actions for the parsed pieces `spans` of `word`, or `None` if a piece's byte range
/// does not fit the word or the piece has no action.
pub open spec fn span_actions(word: Seq<char>, spans: Seq<(PieceKind, usize, usize)>) -> Option<Seq<ActionView>>
    decreases spans.len(),
{
    if spans.len() == 0 {
        Some(Seq::empty())
    } else {
        match (span_actions(word, spans.drop_last()), span_text(word, spans.last().1 as int, spans.last().2 as int)) {
            (Some(acts), Some(t)) => match piece_action(spans.last().0, t) {
                Some(a) => Some(acts.push(a)),
                None => None,
            },
            _ => None,
        }
    }
}

/// Whether `c` can start or take part in an expansion.
pub open spec fn may_expand(c: char) -> bool {
    c == '$' || c == '`' || c == '\\' || c == '\'' || c == '"' || c == '~' || c == '{'
}

/// How a word expands, piece by piece. A word with no char that can take part in an
/// expansion is one piece of splittable text, unparsed. Otherwise the word is parsed: a
/// parse error is `Err(true)`, a piece with no action `Err(false)`, and else the actions
/// of its pieces.
pub open spec fn expansion_plan(word: Seq<char>, options: WordParseOptions) -> Result<Seq<ActionView>, bool> {
    if !(exists|i: int| 0 <= i < word.len() && may_expand(#[trigger] word[i])) {
        Ok(seq![ActionView::Ready(single_piece(PieceView::Splittable(word)))])
    } else {
        match parsed_word(word, options) {
            None => Err(true),
            Some(spans) => match span_actions(word, spans) {
                Some(acts) => Ok(acts),
                None => Err(false),
            },
        }
    }
}

fn one_piece(p: ExpansionPiece) -> (r: Expansion)
    ensures
        r@ == single_piece(p@),
{
    let mut fields: Vec<WordField> = Vec::new();
    fields.push(WordField::from_piece(p));
    let r = Expansion { fields, concatenate: true, from_array: false, undefined: false };
    proof {
        assert(r@.fields =~= seq![seq![p@]]);
    }
    r
}

/// Returns the action for a piece of kind `kind` whose text is `t` (see [`piece_action`]).
fn action_for(kind: PieceKind, t: Vec<char>) -> (r: Option<PieceAction>)
    ensures
        match piece_action(kind, t@) {
            Some(a) => r matches Some(ra) && ra@ == a,
            None => r is None,
        },
{
    let n = t.len();
    match kind {
        PieceKind::Text => Some(PieceAction::Ready(one_piece(ExpansionPiece::Splittable(text::string_of_all(&t))))),
        PieceKind::SingleQuotedText => if n >= 2 {
            Some(PieceAction::Ready(one_piece(ExpansionPiece::Unsplittable(text::string_of(&t, 1, n - 1)))))
        } else {
            None
        },
        PieceKind::EscapeSequence => if n >= 1 {
            let s = text::string_of(&t, 1, n);
            proof {
                assert(t@.subrange(1, n as int) =~= t@.drop_first());
            }
            Some(PieceAction::Ready(one_piece(ExpansionPiece::Unsplittable(s))))
        } else {
            None
        },
        PieceKind::ShellExpansion => Some(PieceAction::Expand { kind, source: text::string_of_all(&t) }),
    }
}

/// Returns how `word` expands, piece by piece (see [`expansion_plan`]): a parse error is
/// a word-parse error, a piece the parser placed outside the word an internal error.
pub fn word_expansion_plan(word: &str, options: &WordParseOptions) -> (r: Result<Vec<PieceAction>, Error>)
    requires
        text_width(word@) <= usize::MAX,
    ensures
        match expansion_plan(word@, *options) {
            Ok(acts) => r matches Ok(v) && actions_view(v@) == acts,
            Err(true) => r matches Err(e) && e.spec_kind() is WordParseError,
            Err(false) => r matches Err(e) && e.spec_kind() is InternalError,
        },
{
    let v = text::chars_of(word);
    let mut i: usize = 0;
    let mut any = false;
    while i < v.len()
        invariant
            v@ == word@,
            i <= v@.len(),
            any <==> exists|j: int| 0 <= j < i && may_expand(#[trigger] word@[j]),
        decreases v@.len() - i,
    {
        let c = v[i];
        if c == '$' || c == '`' || c == '\\' || c == '\'' || c == '"' || c == '~' || c == '{' {
            any = true;
        }
        proof {
            if any {
                if may_expand(c) {
                    assert(may_expand(word@[i as int]));
                }
            }
        }
        i = i + 1;
    }
    if !any {
        let mut r: Vec<PieceAction> = Vec::new();
        r.push(PieceAction::Ready(one_piece(ExpansionPiece::Splittable(word.to_owned()))));
        proof {
            assert(actions_view(r@) =~= seq![ActionView::Ready(single_piece(PieceView::Splittable(word@)))]);
        }
        return Ok(r);
    }
    let spans = match parse_word(word, options) {
        Ok(spans) => spans,
        Err(e) => return Err(Error::new(ErrorKind::WordParseError(e))),
    };
    let mut acts: Vec<PieceAction> = Vec::new();
    let mut k: usize = 0;
    while k < spans.len()
        invariant
            v@ == word@,
            text_width(word@) <= usize::MAX,
            exists|j: int| 0 <= j < word@.len() && may_expand(#[trigger] word@[j]),
            parsed_word(word@, *options) == Some(spans@),
            k <= spans@.len(),
            span_actions(word@, spans@.take(k as int)) == Some(actions_view(acts@)),
        decreases spans@.len() - k,
    {
        let (kind, start, end) = spans[k];
        proof {
            assert(spans@.take(k + 1).drop_last() == spans@.take(k as int));
            assert(spans@.take(k + 1).last() == (kind, start, end));
        }
        let ci = char_index_at_byte(&v, start);
        let cj = char_index_at_byte(&v, end);
        if ci.is_none() || cj.is_none() || start > end {
            proof {
                assert(span_text(word@, start as int, end as int) is None);
                lemma_span_actions_fail_after(word@, spans@, k + 1);
            }
            return Err(Error::new(ErrorKind::InternalError(String::from_str("word parser returned an invalid source span"))));
        }
        let ci = ci.unwrap();
        let cj = cj.unwrap();
        proof {
            if cj < ci {
                crate::completion::quoting::lemma_byte_at_strict(word@, cj as int, ci as int);
            }
        }
        let t = text::chars_of(text::string_of(&v, ci, cj).as_str());
        assert(span_text(word@, start as int, end as int) == Some(t@));
        match action_for(kind, t) {
            Some(a) => {
                proof {
                    assert(actions_view(acts@.push(a)) =~= actions_view(acts@).push(a@));
                }
                acts.push(a);
            },
            None => {
                proof {
                    lemma_span_actions_fail_after(word@, spans@, k + 1);
                }
                return Err(Error::new(ErrorKind::InternalError(String::from_str("word parser returned a malformed piece"))));
            },
        }
        k = k + 1;
    }
    proof {
        assert(spans@.take(spans@.len() as int) == spans@);
    }
    Ok(acts)
}

/// Once the actions of the first `k` spans fail, those of all of them do.
proof fn lemma_span_actions_fail_after(word: Seq<char>, spans: Seq<(PieceKind, usize, usize)>, k: int)
    requires
        0 <= k <= spans.len(),
        span_actions(word, spans.take(k)) is None,
    ensures
        span_actions(word, spans) is None,
    decreases spans.len() - k,
{
    if k < spans.len() {
        assert(spans.take(k + 1).drop_last() == spans.take(k));
        lemma_span_actions_fail_after(word, spans, k + 1);
    } else {
        assert(spans.take(k) == spans);
    }
}

/// Where expanding a word stands: the actions still to run, in order, and the expansions
/// of the pieces done so far.
#[derive(Debug)]
pub struct ExpansionState {
    /// The actions still to run.
    pub remaining: Vec<PieceAction>,
    /// The expansions of the pieces done so far.
    pub done: Vec<Expansion>,
}

impl ExpansionState {
    /// The model: the actions still to run and the expansions done so far.
    pub open spec fn view(&self) -> (Seq<ActionView>, Seq<ExpansionView>) {
        (actions_view(self.remaining@), expansions_view(self.done@))
    }

    /// The state before any piece of a word is expanded, given its plan.
    pub fn new(plan: Vec<PieceAction>) -> (r: Self)
        ensures
            r@ == (actions_view(plan@), Seq::<ExpansionView>::empty()),
    {
        let r = ExpansionState { remaining: plan, done: Vec::new() };
        proof {
            assert(expansions_view(r.done@) =~= Seq::<ExpansionView>::empty());
        }
        r
    }
}

/// What the caller does next: expand a piece that needs the shell, handing its expansion
/// to the next step, or take the word's expansion.
#[derive(Debug)]
pub enum ExpansionAction {
    /// Expand this piece.
    Expand {
        /// The kind of piece.
        kind: PieceKind,
        /// The piece's text in the word.
        source: String,
    },
    /// The word expands to this.
    Done(Expansion),
}

/// The model of an [`ExpansionAction`].
pub enum StepView {
    Expand { kind: PieceKind, source: Seq<char> },
    Done(ExpansionView),
}

impl ExpansionAction {
    /// The model of this action.
    pub open spec fn view(&self) -> StepView {
        match self {
            ExpansionAction::Expand { kind, source } => StepView::Expand { kind: *kind, source: source@ },
            ExpansionAction::Done(e) => StepView::Done(e@),
        }
    }
}

/// Runs the leading ready actions of `remaining`, adding their expansions to `done`.
pub open spec fn run_ready(remaining: Seq<ActionView>, done: Seq<ExpansionView>) -> (Seq<ActionView>, Seq<ExpansionView>)
    decreases remaining.len(),
{
    if remaining.len() > 0 && remaining[0] is Ready {
        run_ready(remaining.drop_first(), done.push(remaining[0]->Ready_0))
    } else {
        (remaining, done)
    }
}

/// One step of expanding a word from `state`, the expansion of the piece handed out last
/// being `finished` (`None` on the first step): it is added to those done, the ready
/// actions after it are run, and then the next piece that needs the shell is handed out,
/// or, if there is none, the expansions done are joined (see [`coalesced`]) and the state
/// is emptied.
pub open spec fn step_outcome(
    state: (Seq<ActionView>, Seq<ExpansionView>),
    finished: Option<ExpansionView>,
) -> ((Seq<ActionView>, Seq<ExpansionView>), StepView) {
    let done = match finished {
        Some(e) => state.1.push(e),
        None => state.1,
    };
    let (rem, d) = run_ready(state.0, done);
    if rem.len() > 0 {
        ((rem.drop_first(), d), StepView::Expand { kind: rem[0]->kind, source: rem[0]->source })
    } else {
        ((rem, Seq::empty()), StepView::Done(coalesced(d)))
    }
}

/// Takes one step of expanding a word (see [`step_outcome`]).
pub fn expansion_step(state: ExpansionState, finished: Option<Expansion>) -> (r: (ExpansionState, ExpansionAction))
    ensures
        (r.0@, r.1@) == step_outcome(state@, match finished {
            Some(e) => Some(e@),
            None => None,
        }),
{
    let mut st = state;
    let ghost start = st@;
    match finished {
        Some(e) => {
            proof {
                assert(expansions_view(st.done@.push(e)) =~= expansions_view(st.done@).push(e@));
            }
            st.done.push(e);
        },
        None => {},
    }
    let ghost target = run_ready(start.0, st@.1);
    while st.remaining.len() > 0 && matches!(st.remaining[0], PieceAction::Ready(_))
        invariant
            run_ready(st@.0, st@.1) == target,
        decreases st.remaining@.len(),
    {
        let ghost before = st@;
        let a = st.remaining.remove(0);
        proof {
            assert(actions_view(st.remaining@) =~= before.0.drop_first());
            assert(a@ == before.0[0]);
        }
        match a {
            PieceAction::Ready(e) => {
                proof {
                    assert(expansions_view(st.done@.push(e)) =~= expansions_view(st.done@).push(e@));
                }
                st.done.push(e);
            },
            PieceAction::Expand { .. } => {},
        }
    }
    if st.remaining.len() > 0 {
        let ghost before = st@;
        let a = st.remaining.remove(0);
        proof {
            assert(actions_view(st.remaining@) =~= before.0.drop_first());
            assert(a@ == before.0[0]);
        }
        match a {
            PieceAction::Expand { kind, source } => (st, ExpansionAction::Expand { kind, source }),
            PieceAction::Ready(e) => {
                proof {
                    assert(false);
                }
                (st, ExpansionAction::Done(e))
            },
        }
    } else {
        let done = st.done;
        let e = coalesce_expansions(done);
        let r = (ExpansionState { remaining: st.remaining, done: Vec::new() }, ExpansionAction::Done(e));
        proof {
            assert(expansions_view(r.0.done@) =~= Seq::<ExpansionView>::empty());
        }
        r
    }
}

/// `s` without the newlines at its end.
pub open spec fn trim_trailing_newlines(s: Seq<char>) -> Seq<char>
    decreases s.len(),
{
    if s.len() > 0 && s.last() == '\n' {
        trim_trailing_newlines(s.drop_last())
    } else {
        s
    }
}

/// Returns the expansion of a command substitution whose command printed `output`: the
/// output without its trailing newlines, splittable.
pub fn command_output_expansion(output: &str) -> (r: Expansion)
    ensures
        r@ == single_piece(PieceView::Splittable(trim_trailing_newlines(output@))),
{
    let v = text::chars_of(output);
    let mut n: usize = v.len();
    proof {
        assert(v@.take(v@.len() as int) == v@);
    }
    while n > 0 && v[n - 1] == '\n'
        invariant
            v@ == output@,
            n <= v@.len(),
            trim_trailing_newlines(v@.take(n as int)) == trim_trailing_newlines(output@),
        decreases n,
    {
        proof {
            assert(v@.take(n as int).drop_last() == v@.take(n - 1));
        }
        n = n - 1;
    }
    proof {
        assert(v@.take(v@.len() as int) == v@);
    }
    let t = text::string_of(&v, 0, n);
    proof {
        assert(t@ == v@.take(n as int));
    }
    one_piece(ExpansionPiece::Splittable(t))
}

/// The text of the fields `fs`, one space between each two.
pub open spec fn spaced_text(fs: Seq<Seq<PieceView>>) -> Seq<char>
    decreases fs.len(),
{
    if fs.len() == 0 {
        Seq::empty()
    } else if fs.len() == 1 {
        field_text(fs[0])
    } else {
        spaced_text(fs.drop_last()) + seq![' '] + field_text(fs.last())
    }
}

/// Returns the text an expansion reads as: its fields' text, one space between each two.
pub fn expansion_text(e: &Expansion) -> (r: String)
    ensures
        r@ == spaced_text(e@.fields),
{
    let mut r = String::new();
    let mut i: usize = 0;
    proof {
        assert(e@.fields.take(0) =~= Seq::<Seq<PieceView>>::empty());
    }
    while i < e.fields.len()
        invariant
            i <= e@.fields.len(),
            e@.fields.len() == e.fields@.len(),
            r@ == spaced_text(e@.fields.take(i as int)),
        decreases e.fields@.len() - i,
    {
        let ghost before = r@;
        if i > 0 {
            text::push_char(&mut r, ' ');
        }
        let t = e.fields[i].text();
        proof {
            assert(e@.fields[i as int] == e.fields@[i as int]@);
        }
        text::push_str(&mut r, t.as_str());
        proof {
            let fs = e@.fields.take(i + 1);
            assert(fs.drop_last() =~= e@.fields.take(i as int));
            assert(fs.last() == e@.fields[i as int]);
            if i == 0 {
                assert(fs.len() == 1);
                assert(r@ =~= field_text(fs[0]));
            } else {
                assert(r@ =~= before + seq![' '] + t@);
            }
        }
        i = i + 1;
    }
    proof {
        assert(e@.fields.take(e@.fields.len() as int) == e@.fields);
    }
    r
}

/// Command substitution drops only the newlines at the end of the output: the output is
/// the text kept followed by nothing but newlines, and the text kept is empty or does not
/// end with a newline (every other char, spaces included, stays).
pub proof fn law_only_trailing_newlines_dropped(output: Seq<char>)
    ensures
        output == trim_trailing_newlines(output) + Seq::new(
            (output.len() - trim_trailing_newlines(output).len()) as nat,
            |i: int| '\n',
        ),
        trim_trailing_newlines(output).len() <= output.len(),
        trim_trailing_newlines(output).len() == 0 || trim_trailing_newlines(output).last() != '\n',
    decreases output.len(),
{
    if output.len() > 0 && output.last() == '\n' {
        let init = output.drop_last();
        law_only_trailing_newlines_dropped(init);
        let t = trim_trailing_newlines(init);
        assert(trim_trailing_newlines(output) == t);
        let k = (init.len() - t.len()) as nat;
        assert(Seq::new((k + 1) as nat, |i: int| '\n') =~= Seq::new(k, |i: int| '\n').push('\n'));
        assert(output =~= init.push('\n'));
        assert(t + Seq::new((k + 1) as nat, |i: int| '\n') =~= (t + Seq::new(k, |i: int| '\n')).push('\n'));
    } else {
        assert(Seq::new(0, |i: int| '\n') =~= Seq::<char>::empty());
        assert(output + Seq::<char>::empty() =~= output);
    }
}

} // verus!
