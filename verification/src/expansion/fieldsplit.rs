//! Field splitting: breaking the results of expansion into words on `IFS`.
//!
//! Bash treats the characters in `IFS` as two kinds of delimiter:
//!
//! - *IFS whitespace* (space, tab, newline and the rest of the C locale's `isspace` set)
//!   is "soft". A run of it, however long, is one separator, and any of it at the start
//!   or end of a value is simply dropped. `"  a   b  "` splits to `a` and `b`.
//! - Every other character in `IFS` is "hard". Each occurrence is a separator in its
//!   own right, so two in a row enclose an empty field, and one at the very start leaves
//!   an empty field in front of it. With `IFS=:`, `a::b` is `a`, an empty field, `b`.
//!
//! The two mix by absorption: whitespace on either side of a hard delimiter belongs to
//! that delimiter, so `a : b` under `IFS=': '` is two fields, not three. A hard delimiter
//! at the very end closes the field before it but does not open an empty one after it.

use vstd::prelude::*;

use super::{field_text, fields_view, is_ifs_whitespace, piece_text, pieces_view, Expansion, ExpansionPiece, PieceView, WordField};
use crate::text;

verus! {

/// Where the splitter is relative to the field boundaries it has emitted.
#[derive(Clone, Copy, Debug, PartialEq, Eq, Structural)]
pub enum SplitState {
    /// A field is open: at least one piece has gone into it. The next delimiter closes
    /// the field; anything else extends it.
    InField,
    /// No field is open. The last delimiter was whitespace, so the run can still absorb
    /// one hard delimiter without closing an empty field.
    AfterWhitespace,
    /// No field is open, and the run cannot absorb another hard delimiter. This is the
    /// initial state and the state right after a hard delimiter. A hard delimiter here
    /// closes an empty field.
    AfterDelimiter,
}

/// The splitter's progress: the fields emitted, the field being built, and the state.
#[verifier::ext_equal]
pub struct SplitModel {
    pub fields: Seq<Seq<PieceView>>,
    pub current: Seq<PieceView>,
    pub state: SplitState,
}

/// The field being built with the char `c` added: to its trailing splittable piece, or
/// as a new one.
pub open spec fn with_char(current: Seq<PieceView>, c: char) -> Seq<PieceView> {
    if current.len() > 0 && current.last() is Splittable {
        current.update(current.len() - 1, PieceView::Splittable(current.last()->Splittable_0.push(c)))
    } else {
        current.push(PieceView::Splittable(seq![c]))
    }
}

/// The splitter after the unquoted char `c` (see the module docs): an ordinary char
/// extends the open field, or opens one; a delimiter closes an open field, and a hard one
/// not absorbed by the whitespace before it closes an empty field.
pub open spec fn char_step(m: SplitModel, c: char, ifs: Seq<char>) -> SplitModel {
    if !ifs.contains(c) {
        SplitModel { fields: m.fields, current: with_char(m.current, c), state: SplitState::InField }
    } else {
        let whitespace = is_ifs_whitespace(c);
        match m.state {
            SplitState::InField => SplitModel {
                fields: m.fields.push(m.current),
                current: Seq::empty(),
                state: if whitespace { SplitState::AfterWhitespace } else { SplitState::AfterDelimiter },
            },
            SplitState::AfterWhitespace => if whitespace {
                m
            } else {
                SplitModel { fields: m.fields, current: m.current, state: SplitState::AfterDelimiter }
            },
            SplitState::AfterDelimiter => if whitespace {
                m
            } else {
                SplitModel { fields: m.fields.push(Seq::empty()), current: m.current, state: SplitState::AfterDelimiter }
            },
        }
    }
}

/// The splitter after the unquoted chars `s`.
pub open spec fn chars_step(m: SplitModel, s: Seq<char>, ifs: Seq<char>) -> SplitModel
    decreases s.len(),
{
    if s.len() == 0 {
        m
    } else {
        char_step(chars_step(m, s.drop_last(), ifs), s.last(), ifs)
    }
}

/// The splitter after a piece: splittable text is split char by char; an empty literal
/// adds nothing; other pieces go into the field untouched, opening one if needed.
pub open spec fn piece_step(m: SplitModel, p: PieceView, ifs: Seq<char>) -> SplitModel {
    match p {
        PieceView::Splittable(s) => chars_step(m, s, ifs),
        PieceView::UnquotedLiteral(s) => if s.len() == 0 {
            m
        } else {
            SplitModel { fields: m.fields, current: m.current.push(p), state: SplitState::InField }
        },
        PieceView::Unsplittable(_) => SplitModel { fields: m.fields, current: m.current.push(p), state: SplitState::InField },
    }
}

/// The splitter after the pieces `ps`.
pub open spec fn pieces_step(m: SplitModel, ps: Seq<PieceView>, ifs: Seq<char>) -> SplitModel
    decreases ps.len(),
{
    if ps.len() == 0 {
        m
    } else {
        piece_step(pieces_step(m, ps.drop_last(), ifs), ps.last(), ifs)
    }
}

/// The fields emitted after splitting one incoming field, on top of `fields`: it is split
/// on its own, from the state after a delimiter, and an open field is flushed at its end.
pub open spec fn field_step(fields: Seq<Seq<PieceView>>, f: Seq<PieceView>, ifs: Seq<char>) -> Seq<Seq<PieceView>> {
    let m = pieces_step(SplitModel { fields, current: Seq::empty(), state: SplitState::AfterDelimiter }, f, ifs);
    if m.state == SplitState::InField {
        m.fields.push(m.current)
    } else {
        m.fields
    }
}

/// The fields that splitting the incoming fields `fs` on `ifs` gives. Each incoming field
/// is split on its own, so a delimiter run never reaches across two of them.
pub open spec fn split_spec(ifs: Seq<char>, fs: Seq<Seq<PieceView>>) -> Seq<Seq<PieceView>>
    decreases fs.len(),
{
    if fs.len() == 0 {
        Seq::empty()
    } else {
        field_step(split_spec(ifs, fs.drop_last()), fs.last(), ifs)
    }
}

/// The splitter's progress, from the fields emitted and the field being built.
pub open spec fn model_of(fields: Seq<WordField>, current: Seq<ExpansionPiece>, state: SplitState) -> SplitModel {
    SplitModel { fields: fields_view(fields), current: pieces_view(current), state }
}

/// The splitter at the start of an incoming field, with `fields` emitted.
pub open spec fn initial_model(fields: Seq<Seq<PieceView>>) -> SplitModel {
    SplitModel { fields, current: Seq::empty(), state: SplitState::AfterDelimiter }
}

/// Only an open field holds pieces.
pub open spec fn model_ok(m: SplitModel) -> bool {
    m.state != SplitState::InField ==> m.current.len() == 0
}

/// Adds the char `c` to the field being built.
fn push_char_to(current: &mut Vec<ExpansionPiece>, c: char)
    ensures
        pieces_view(final(current)@) == with_char(pieces_view(old(current)@), c),
{
    let ghost before = current@;
    match current.pop() {
        Some(ExpansionPiece::Splittable(s)) => {
            let mut s = s;
            text::push_char(&mut s, c);
            current.push(ExpansionPiece::Splittable(s));
            proof {
                assert(pieces_view(current@) =~= with_char(pieces_view(before), c));
            }
        },
        Some(other) => {
            current.push(other);
            let mut s = String::new();
            text::push_char(&mut s, c);
            current.push(ExpansionPiece::Splittable(s));
            proof {
                assert(current@ =~= before.push(ExpansionPiece::Splittable(s)));
                assert(pieces_view(current@) =~= with_char(pieces_view(before), c));
            }
        },
        None => {
            let mut s = String::new();
            text::push_char(&mut s, c);
            current.push(ExpansionPiece::Splittable(s));
            proof {
                assert(pieces_view(current@) =~= with_char(pieces_view(before), c));
            }
        },
    }
}

/// Returns the field being built, leaving it empty.
fn take_field(current: &mut Vec<ExpansionPiece>) -> (r: WordField)
    ensures
        r@ == pieces_view(old(current)@),
        final(current)@.len() == 0,
{
    let mut taken: Vec<ExpansionPiece> = Vec::new();
    std::mem::swap(current, &mut taken);
    WordField(taken)
}

/// Takes the unquoted char `c` through the splitter (see [`char_step`]), returning the new
/// state.
fn split_char(
    fields: &mut Vec<WordField>,
    current: &mut Vec<ExpansionPiece>,
    state: SplitState,
    c: char,
    ifs: &str,
) -> (r: SplitState)
    requires
        model_ok(model_of(old(fields)@, old(current)@, state)),
    ensures
        model_ok(model_of(final(fields)@, final(current)@, r)),
        model_of(final(fields)@, final(current)@, r) == char_step(model_of(old(fields)@, old(current)@, state), c, ifs@),
{
    let ghost m0 = model_of(fields@, current@, state);
    if !text::str_contains_char(ifs, c) {
        push_char_to(current, c);
        return SplitState::InField;
    }
    let whitespace = c == ' ' || c == '\t' || c == '\n' || c == '\r' || c == '\u{0b}' || c == '\u{0c}';
    match state {
        SplitState::InField => {
            let ghost before = fields@;
            let taken = take_field(current);
            fields.push(taken);
            proof {
                assert(fields_view(fields@) =~= fields_view(before).push(m0.current));
                assert(pieces_view(current@) =~= Seq::<PieceView>::empty());
            }
            if whitespace { SplitState::AfterWhitespace } else { SplitState::AfterDelimiter }
        },
        SplitState::AfterWhitespace => {
            if whitespace { SplitState::AfterWhitespace } else { SplitState::AfterDelimiter }
        },
        SplitState::AfterDelimiter => {
            if !whitespace {
                let ghost before = fields@;
                fields.push(WordField::new());
                proof {
                    assert(fields_view(fields@) =~= fields_view(before).push(Seq::empty()));
                }
            }
            SplitState::AfterDelimiter
        },
    }
}

/// Takes one piece through the splitter (see [`piece_step`]), returning the new state.
fn split_piece(
    fields: &mut Vec<WordField>,
    current: &mut Vec<ExpansionPiece>,
    state: SplitState,
    piece: &ExpansionPiece,
    ifs: &str,
) -> (r: SplitState)
    requires
        model_ok(model_of(old(fields)@, old(current)@, state)),
    ensures
        model_ok(model_of(final(fields)@, final(current)@, r)),
        model_of(final(fields)@, final(current)@, r) == piece_step(model_of(old(fields)@, old(current)@, state), piece@, ifs@),
{
    let ghost m0 = model_of(fields@, current@, state);
    match piece {
        ExpansionPiece::Splittable(s) => {
            let v = text::chars_of(s.as_str());
            let mut state = state;
            let mut k: usize = 0;
            while k < v.len()
                invariant
                    k <= v@.len(),
                    model_ok(model_of(fields@, current@, state)),
                    model_of(fields@, current@, state) == chars_step(m0, v@.take(k as int), ifs@),
                decreases v@.len() - k,
            {
                let c = text::char_at(&v, k);
                proof {
                    assert(v@.take(k + 1).drop_last() == v@.take(k as int));
                    assert(v@.take(k + 1).last() == c);
                }
                state = split_char(fields, current, state, c, ifs);
                k = k + 1;
            }
            proof {
                assert(v@.take(v@.len() as int) == v@);
            }
            state
        },
        ExpansionPiece::UnquotedLiteral(s) => {
            if s.as_str().is_empty() {
                state
            } else {
                let ghost before = current@;
                current.push(piece.duplicate());
                proof {
                    assert(pieces_view(current@) =~= pieces_view(before).push(piece@));
                }
                SplitState::InField
            }
        },
        ExpansionPiece::Unsplittable(_) => {
            let ghost before = current@;
            current.push(piece.duplicate());
            proof {
                assert(pieces_view(current@) =~= pieces_view(before).push(piece@));
            }
            SplitState::InField
        },
    }
}

/// Splits an expansion's fields on the characters in `ifs`, following bash's rules
/// (see the module docs). Only splittable text is examined; quoted text and the word's
/// own literal text always stay in the field they are in.
pub fn split_fields(ifs: &str, expansion: Expansion) -> (r: Vec<WordField>)
    ensures
        fields_view(r@) == split_spec(ifs@, fields_view(expansion.fields@)),
        fields_view(r@) == split_each(ifs@, fields_view(expansion.fields@)),
        all_ifs_whitespace(ifs@) ==> no_empty_field(fields_view(r@)),
{
    let ghost fs = fields_view(expansion.fields@);
    let mut fields: Vec<WordField> = Vec::new();
    let mut current: Vec<ExpansionPiece> = Vec::new();
    let mut i: usize = 0;
    while i < expansion.fields.len()
        invariant
            fs == fields_view(expansion.fields@),
            i <= fs.len(),
            current@.len() == 0,
            fields_view(fields@) == split_spec(ifs@, fs.take(i as int)),
        decreases fs.len() - i,
    {
        let field = &expansion.fields[i];
        let mut state = SplitState::AfterDelimiter;
        let ghost start = fields_view(fields@);
        proof {
            assert(pieces_view(current@) =~= Seq::<PieceView>::empty());
            assert(pieces_view(field.0@.take(0)) =~= Seq::<PieceView>::empty());
        }
        let mut j: usize = 0;
        while j < field.0.len()
            invariant
                j <= field.0@.len(),
                model_ok(model_of(fields@, current@, state)),
                model_of(fields@, current@, state) == pieces_step(initial_model(start),
                    pieces_view(field.0@.take(j as int)), ifs@),
            decreases field.0@.len() - j,
        {
            proof {
                assert(pieces_view(field.0@.take(j + 1)).drop_last() == pieces_view(field.0@.take(j as int)));
                assert(pieces_view(field.0@.take(j + 1)).last() == field.0@[j as int]@);
            }
            state = split_piece(&mut fields, &mut current, state, &field.0[j], ifs);
            j = j + 1;
        }
        proof {
            assert(field.0@.take(field.0@.len() as int) == field.0@);
            assert(fs.take(i + 1).drop_last() == fs.take(i as int));
            assert(fs.take(i + 1).last() == field@);
        }
        if state == SplitState::InField {
            let ghost before = fields@;
            let ghost cur = pieces_view(current@);
            let taken = take_field(&mut current);
            fields.push(taken);
            proof {
                assert(fields_view(fields@) =~= fields_view(before).push(cur));
            }
        } else {
            proof {
                assert(current@.len() == 0);
            }
        }
        proof {
            assert(fields_view(fields@) =~= split_spec(ifs@, fs.take(i + 1)));
        }
        i = i + 1;
    }
    proof {
        assert(fs.take(fs.len() as int) == fs);
        law_each_field_split_alone(ifs@, fs);
        if all_ifs_whitespace(ifs@) {
            law_whitespace_ifs_gives_no_empty_field(ifs@, fs);
        }
    }
    fields
}

/// The texts of the fields, joined.
pub open spec fn all_text(fs: Seq<Seq<PieceView>>) -> Seq<char>
    decreases fs.len(),
{
    if fs.len() == 0 {
        Seq::empty()
    } else {
        all_text(fs.drop_last()) + field_text(fs.last())
    }
}

/// `s` without the chars of `ifs`.
pub open spec fn without_ifs(s: Seq<char>, ifs: Seq<char>) -> Seq<char>
    decreases s.len(),
{
    if s.len() == 0 {
        Seq::empty()
    } else {
        without_ifs(s.drop_last(), ifs) + if ifs.contains(s.last()) { Seq::empty() } else { seq![s.last()] }
    }
}

/// The text of a piece that splitting keeps: unquoted expansion output without its `ifs`
/// chars; any other piece whole.
pub open spec fn kept_piece(p: PieceView, ifs: Seq<char>) -> Seq<char> {
    match p {
        PieceView::Splittable(s) => without_ifs(s, ifs),
        _ => piece_text(p),
    }
}

/// The text of a field that splitting keeps.
pub open spec fn kept_field(f: Seq<PieceView>, ifs: Seq<char>) -> Seq<char>
    decreases f.len(),
{
    if f.len() == 0 {
        Seq::empty()
    } else {
        kept_field(f.drop_last(), ifs) + kept_piece(f.last(), ifs)
    }
}

/// The text of the fields that splitting keeps, joined.
pub open spec fn kept_text(fs: Seq<Seq<PieceView>>, ifs: Seq<char>) -> Seq<char>
    decreases fs.len(),
{
    if fs.len() == 0 {
        Seq::empty()
    } else {
        kept_text(fs.drop_last(), ifs) + kept_field(fs.last(), ifs)
    }
}

/// The text the splitter holds: that of the fields emitted and of the field being built.
pub open spec fn model_text(m: SplitModel) -> Seq<char> {
    all_text(m.fields) + field_text(m.current)
}

proof fn lemma_all_text_push(fs: Seq<Seq<PieceView>>, f: Seq<PieceView>)
    ensures
        all_text(fs.push(f)) == all_text(fs) + field_text(f),
{
    assert(fs.push(f).drop_last() =~= fs);
}

proof fn lemma_field_text_push(f: Seq<PieceView>, p: PieceView)
    ensures
        field_text(f.push(p)) == field_text(f) + piece_text(p),
{
    assert(f.push(p).drop_last() =~= f);
}

proof fn lemma_with_char_text(current: Seq<PieceView>, c: char)
    ensures
        field_text(with_char(current, c)) == field_text(current) + seq![c],
{
    if current.len() > 0 && current.last() is Splittable {
        let t = current.last()->Splittable_0;
        let u = with_char(current, c);
        assert(u.drop_last() =~= current.drop_last());
        assert(u.last() == PieceView::Splittable(t.push(c)));
        assert(t.push(c) =~= t + seq![c]);
        assert(field_text(current) == field_text(current.drop_last()) + t);
        assert(field_text(current.drop_last()) + t + seq![c] =~= field_text(current.drop_last()) + (t + seq![c]));
    } else {
        lemma_field_text_push(current, PieceView::Splittable(seq![c]));
    }
}

proof fn lemma_char_step_text(m: SplitModel, c: char, ifs: Seq<char>)
    requires
        model_ok(m),
    ensures
        model_ok(char_step(m, c, ifs)),
        model_text(char_step(m, c, ifs)) == model_text(m) + if ifs.contains(c) { Seq::empty() } else { seq![c] },
{
    if !ifs.contains(c) {
        lemma_with_char_text(m.current, c);
        assert(all_text(m.fields) + (field_text(m.current) + seq![c]) =~= model_text(m) + seq![c]);
    } else {
        assert(model_text(m) + Seq::<char>::empty() =~= model_text(m));
        assert(field_text(Seq::<PieceView>::empty()) =~= Seq::<char>::empty());
        match m.state {
            SplitState::InField => {
                lemma_all_text_push(m.fields, m.current);
                assert(model_text(char_step(m, c, ifs)) =~= model_text(m));
            },
            SplitState::AfterWhitespace => {},
            SplitState::AfterDelimiter => {
                if !is_ifs_whitespace(c) {
                    lemma_all_text_push(m.fields, Seq::empty());
                    assert(all_text(m.fields) + Seq::<char>::empty() =~= all_text(m.fields));
                }
            },
        }
    }
}

proof fn lemma_chars_step_text(m: SplitModel, s: Seq<char>, ifs: Seq<char>)
    requires
        model_ok(m),
    ensures
        model_ok(chars_step(m, s, ifs)),
        model_text(chars_step(m, s, ifs)) == model_text(m) + without_ifs(s, ifs),
    decreases s.len(),
{
    if s.len() == 0 {
        assert(model_text(m) + Seq::<char>::empty() =~= model_text(m));
    } else {
        lemma_chars_step_text(m, s.drop_last(), ifs);
        let prev = chars_step(m, s.drop_last(), ifs);
        lemma_char_step_text(prev, s.last(), ifs);
        let extra = if ifs.contains(s.last()) { Seq::<char>::empty() } else { seq![s.last()] };
        assert(model_text(m) + without_ifs(s.drop_last(), ifs) + extra =~= model_text(m) + (without_ifs(s.drop_last(), ifs) + extra));
    }
}

proof fn lemma_piece_step_text(m: SplitModel, p: PieceView, ifs: Seq<char>)
    requires
        model_ok(m),
    ensures
        model_ok(piece_step(m, p, ifs)),
        model_text(piece_step(m, p, ifs)) == model_text(m) + kept_piece(p, ifs),
{
    match p {
        PieceView::Splittable(s) => {
            lemma_chars_step_text(m, s, ifs);
        },
        PieceView::UnquotedLiteral(s) => {
            if s.len() == 0 {
                assert(model_text(m) + s =~= model_text(m));
            } else {
                lemma_field_text_push(m.current, p);
                assert(all_text(m.fields) + (field_text(m.current) + s) =~= model_text(m) + s);
            }
        },
        PieceView::Unsplittable(s) => {
            lemma_field_text_push(m.current, p);
            assert(all_text(m.fields) + (field_text(m.current) + s) =~= model_text(m) + s);
        },
    }
}

proof fn lemma_pieces_step_text(m: SplitModel, ps: Seq<PieceView>, ifs: Seq<char>)
    requires
        model_ok(m),
    ensures
        model_ok(pieces_step(m, ps, ifs)),
        model_text(pieces_step(m, ps, ifs)) == model_text(m) + kept_field(ps, ifs),
    decreases ps.len(),
{
    if ps.len() == 0 {
        assert(model_text(m) + Seq::<char>::empty() =~= model_text(m));
    } else {
        lemma_pieces_step_text(m, ps.drop_last(), ifs);
        lemma_piece_step_text(pieces_step(m, ps.drop_last(), ifs), ps.last(), ifs);
        assert(model_text(m) + kept_field(ps.drop_last(), ifs) + kept_piece(ps.last(), ifs) =~= model_text(m) + (kept_field(
            ps.drop_last(),
            ifs,
        ) + kept_piece(ps.last(), ifs)));
    }
}

/// Splitting only drops the `IFS` chars of unquoted expansion output: the texts of the
/// fields it gives, joined, are the texts of the incoming fields, joined, without those
/// chars; quoted text and the word's own literal text are all kept.
pub proof fn law_splitting_keeps_text(ifs: Seq<char>, fs: Seq<Seq<PieceView>>)
    ensures
        all_text(split_spec(ifs, fs)) == kept_text(fs, ifs),
    decreases fs.len(),
{
    if fs.len() > 0 {
        law_splitting_keeps_text(ifs, fs.drop_last());
        let fields = split_spec(ifs, fs.drop_last());
        let m0 = SplitModel { fields, current: Seq::empty(), state: SplitState::AfterDelimiter };
        assert(field_text(Seq::<PieceView>::empty()) =~= Seq::<char>::empty());
        assert(model_text(m0) =~= all_text(fields));
        lemma_pieces_step_text(m0, fs.last(), ifs);
        let m = pieces_step(m0, fs.last(), ifs);
        if m.state == SplitState::InField {
            lemma_all_text_push(m.fields, m.current);
        } else {
            assert(m.current.len() == 0);
            assert(m.current =~= Seq::<PieceView>::empty());
            assert(model_text(m) =~= all_text(m.fields));
        }
    }
}

/// Whether every char of `ifs` is IFS whitespace.
pub open spec fn all_ifs_whitespace(ifs: Seq<char>) -> bool {
    forall|i: int| 0 <= i < ifs.len() ==> is_ifs_whitespace(#[trigger] ifs[i])
}

/// Whether no field is empty.
pub open spec fn no_empty_field(fs: Seq<Seq<PieceView>>) -> bool {
    forall|i: int| 0 <= i < fs.len() ==> (#[trigger] fs[i]).len() > 0
}

/// The splitter holds no empty field, and an open field has a piece.
pub open spec fn whitespace_model_ok(m: SplitModel) -> bool {
    &&& no_empty_field(m.fields)
    &&& m.state == SplitState::InField ==> m.current.len() > 0
}

proof fn lemma_char_step_no_empty(m: SplitModel, c: char, ifs: Seq<char>)
    requires
        all_ifs_whitespace(ifs),
        whitespace_model_ok(m),
    ensures
        whitespace_model_ok(char_step(m, c, ifs)),
{
    if !ifs.contains(c) {
        let cur = m.current;
        if !(cur.len() > 0 && cur.last() is Splittable) {
            assert(cur.push(PieceView::Splittable(seq![c])).len() > 0);
        }
    } else {
        let j = choose|j: int| 0 <= j < ifs.len() && ifs[j] == c;
        assert(is_ifs_whitespace(ifs[j]));
        if m.state == SplitState::InField {
            let f2 = m.fields.push(m.current);
            assert forall|i: int| 0 <= i < f2.len() implies (#[trigger] f2[i]).len() > 0 by {
                if i < m.fields.len() {
                    assert(f2[i] == m.fields[i]);
                }
            }
        }
    }
}

proof fn lemma_chars_step_no_empty(m: SplitModel, s: Seq<char>, ifs: Seq<char>)
    requires
        all_ifs_whitespace(ifs),
        whitespace_model_ok(m),
    ensures
        whitespace_model_ok(chars_step(m, s, ifs)),
    decreases s.len(),
{
    if s.len() > 0 {
        lemma_chars_step_no_empty(m, s.drop_last(), ifs);
        lemma_char_step_no_empty(chars_step(m, s.drop_last(), ifs), s.last(), ifs);
    }
}

proof fn lemma_pieces_step_no_empty(m: SplitModel, ps: Seq<PieceView>, ifs: Seq<char>)
    requires
        all_ifs_whitespace(ifs),
        whitespace_model_ok(m),
    ensures
        whitespace_model_ok(pieces_step(m, ps, ifs)),
    decreases ps.len(),
{
    if ps.len() > 0 {
        lemma_pieces_step_no_empty(m, ps.drop_last(), ifs);
        let prev = pieces_step(m, ps.drop_last(), ifs);
        match ps.last() {
            PieceView::Splittable(s) => lemma_chars_step_no_empty(prev, s, ifs),
            _ => {},
        }
    }
}

/// With only whitespace in `IFS`, splitting gives no empty field: runs of whitespace
/// separate fields but never enclose an empty one, and whitespace at either end is
/// dropped.
pub proof fn law_whitespace_ifs_gives_no_empty_field(ifs: Seq<char>, fs: Seq<Seq<PieceView>>)
    requires
        all_ifs_whitespace(ifs),
    ensures
        no_empty_field(split_spec(ifs, fs)),
    decreases fs.len(),
{
    if fs.len() > 0 {
        law_whitespace_ifs_gives_no_empty_field(ifs, fs.drop_last());
        let fields = split_spec(ifs, fs.drop_last());
        let m0 = SplitModel { fields, current: Seq::empty(), state: SplitState::AfterDelimiter };
        lemma_pieces_step_no_empty(m0, fs.last(), ifs);
        let m = pieces_step(m0, fs.last(), ifs);
        if m.state == SplitState::InField {
            let f2 = m.fields.push(m.current);
            assert forall|i: int| 0 <= i < f2.len() implies (#[trigger] f2[i]).len() > 0 by {
                if i < m.fields.len() {
                    assert(f2[i] == m.fields[i]);
                }
            }
        }
    }
}

/// The splitter `m` with the fields `pre` emitted before its own.
pub open spec fn after_fields(pre: Seq<Seq<PieceView>>, m: SplitModel) -> SplitModel {
    SplitModel { fields: pre + m.fields, current: m.current, state: m.state }
}

/// Fields emitted earlier do not change what a char does.
proof fn lemma_char_step_frame(pre: Seq<Seq<PieceView>>, m: SplitModel, c: char, ifs: Seq<char>)
    ensures
        char_step(after_fields(pre, m), c, ifs) == after_fields(pre, char_step(m, c, ifs)),
{
    assert((pre + m.fields).push(m.current) =~= pre + m.fields.push(m.current));
    assert((pre + m.fields).push(Seq::empty()) =~= pre + m.fields.push(Seq::empty()));
    assert(char_step(after_fields(pre, m), c, ifs) =~= after_fields(pre, char_step(m, c, ifs)));
}

/// Fields emitted earlier do not change what a run of chars does.
proof fn lemma_chars_step_frame(pre: Seq<Seq<PieceView>>, m: SplitModel, s: Seq<char>, ifs: Seq<char>)
    ensures
        chars_step(after_fields(pre, m), s, ifs) == after_fields(pre, chars_step(m, s, ifs)),
    decreases s.len(),
{
    if s.len() > 0 {
        lemma_chars_step_frame(pre, m, s.drop_last(), ifs);
        lemma_char_step_frame(pre, chars_step(m, s.drop_last(), ifs), s.last(), ifs);
    }
}

/// Fields emitted earlier do not change what a run of pieces does.
proof fn lemma_pieces_step_frame(pre: Seq<Seq<PieceView>>, m: SplitModel, ps: Seq<PieceView>, ifs: Seq<char>)
    ensures
        pieces_step(after_fields(pre, m), ps, ifs) == after_fields(pre, pieces_step(m, ps, ifs)),
    decreases ps.len(),
{
    if ps.len() > 0 {
        lemma_pieces_step_frame(pre, m, ps.drop_last(), ifs);
        let mid = pieces_step(m, ps.drop_last(), ifs);
        match ps.last() {
            PieceView::Splittable(t) => lemma_chars_step_frame(pre, mid, t, ifs),
            _ => {
                assert(piece_step(after_fields(pre, mid), ps.last(), ifs) =~= after_fields(pre, piece_step(mid, ps.last(), ifs)));
            },
        }
    }
}

/// Splitting an incoming field after fields `pre` adds the fields it gives on its own.
proof fn lemma_field_step_frame(pre: Seq<Seq<PieceView>>, f: Seq<PieceView>, ifs: Seq<char>)
    ensures
        field_step(pre, f, ifs) == pre + field_step(Seq::empty(), f, ifs),
{
    let m0 = SplitModel { fields: Seq::<Seq<PieceView>>::empty(), current: Seq::empty(), state: SplitState::AfterDelimiter };
    assert(after_fields(pre, m0) =~= SplitModel { fields: pre, current: Seq::empty(), state: SplitState::AfterDelimiter });
    lemma_pieces_step_frame(pre, m0, f, ifs);
    let m = pieces_step(m0, f, ifs);
    assert((pre + m.fields).push(m.current) =~= pre + m.fields.push(m.current));
}

/// Each incoming field is split on its own: splitting `a` followed by `b` gives the fields
/// of `a` followed by the fields of `b`, so no field holds pieces of two incoming fields.
pub proof fn law_fields_split_separately(ifs: Seq<char>, a: Seq<Seq<PieceView>>, b: Seq<Seq<PieceView>>)
    ensures
        split_spec(ifs, a + b) == split_spec(ifs, a) + split_spec(ifs, b),
    decreases b.len(),
{
    if b.len() == 0 {
        assert(a + b =~= a);
        assert(split_spec(ifs, a) + split_spec(ifs, b) =~= split_spec(ifs, a));
    } else {
        assert((a + b).drop_last() =~= a + b.drop_last());
        assert((a + b).last() == b.last());
        law_fields_split_separately(ifs, a, b.drop_last());
        let sa = split_spec(ifs, a);
        let sb = split_spec(ifs, b.drop_last());
        lemma_field_step_frame(sa + sb, b.last(), ifs);
        lemma_field_step_frame(sb, b.last(), ifs);
        let one = field_step(Seq::empty(), b.last(), ifs);
        assert(sa + sb + one =~= sa + (sb + one));
    }
}

/// The fields that splitting each of the incoming fields `fs` on its own gives, in order.
pub open spec fn split_each(ifs: Seq<char>, fs: Seq<Seq<PieceView>>) -> Seq<Seq<PieceView>>
    decreases fs.len(),
{
    if fs.len() == 0 {
        Seq::empty()
    } else {
        split_each(ifs, fs.drop_last()) + split_spec(ifs, seq![fs.last()])
    }
}

/// Splitting incoming fields gives, in order, what splitting each of them on its own gives:
/// no field holds pieces of two incoming fields.
pub proof fn law_each_field_split_alone(ifs: Seq<char>, fs: Seq<Seq<PieceView>>)
    ensures
        split_spec(ifs, fs) == split_each(ifs, fs),
    decreases fs.len(),
{
    if fs.len() > 0 {
        law_each_field_split_alone(ifs, fs.drop_last());
        assert(fs =~= fs.drop_last() + seq![fs.last()]);
        law_fields_split_separately(ifs, fs.drop_last(), seq![fs.last()]);
    }
}

} // verus!
