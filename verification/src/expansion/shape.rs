//! What parameter expansion asks of an expansion's result: whether it is defined and
//! empty, its length, a slice of it, and the joining of several results into one.

use vstd::prelude::*;

use super::fieldsplit::all_text;
use super::{field_text, fields_view, piece_text, pieces_view, Expansion, ExpansionPiece, PieceView, WordField};
use crate::completion::quoting::{text_len, text_width};
use crate::text;

verus! {

/// An expansion as values.
#[verifier::ext_equal]
pub struct ExpansionView {
    /// The fields.
    pub fields: Seq<Seq<PieceView>>,
    /// Whether the fields are to be joined into one.
    pub concatenate: bool,
    /// Whether the fields are an array's elements.
    pub from_array: bool,
    /// Whether the expansion is of an undefined parameter.
    pub undefined: bool,
}

impl Expansion {
    /// The expansion as values.
    pub open spec fn view(&self) -> ExpansionView {
        ExpansionView {
            fields: fields_view(self.fields@),
            concatenate: self.concatenate,
            from_array: self.from_array,
            undefined: self.undefined,
        }
    }
}

/// How a parameter's value stands, as `${x:-...}` and its kin ask it.
#[derive(Clone, Copy, Debug, PartialEq, Eq, Structural)]
pub enum ParameterState {
    /// The parameter is not set.
    Undefined,
    /// The parameter is set, to nothing but empty text.
    DefinedEmptyString,
    /// The parameter is set, and some of its text is not empty.
    NonZeroLength,
}

/// Whether some piece of some field has text.
pub open spec fn has_text(fields: Seq<Seq<PieceView>>) -> bool {
    exists|i: int, j: int| 0 <= i < fields.len() && 0 <= j < fields[i].len() && piece_text(#[trigger] fields[i][j]).len() > 0
}

/// The state of a parameter whose expansion is `e`.
pub open spec fn parameter_state(e: ExpansionView) -> ParameterState {
    if e.undefined {
        ParameterState::Undefined
    } else if has_text(e.fields) {
        ParameterState::NonZeroLength
    } else {
        ParameterState::DefinedEmptyString
    }
}

/// The piece `p` with its text replaced by `t`, keeping its kind.
pub open spec fn with_text(p: PieceView, t: Seq<char>) -> PieceView {
    match p {
        PieceView::Unsplittable(_) => PieceView::Unsplittable(t),
        PieceView::Splittable(_) => PieceView::Splittable(t),
        PieceView::UnquotedLiteral(_) => PieceView::UnquotedLiteral(t),
    }
}

/// Where a slice stands while it walks pieces: how many chars are still to skip, how many
/// still to take, and the pieces taken so far.
#[verifier::ext_equal]
pub struct PieceSlice {
    pub dist: nat,
    pub left: nat,
    pub pieces: Seq<PieceView>,
}

/// One piece of the walk: once nothing is left to take, nothing changes; a piece that lies
/// wholly before the slice is skipped; otherwise the part of it in the slice is taken.
pub open spec fn slice_piece(st: PieceSlice, p: PieceView) -> PieceSlice {
    let t = piece_text(p);
    if st.left == 0 {
        st
    } else if st.dist >= t.len() {
        PieceSlice { dist: (st.dist - t.len()) as nat, left: st.left, pieces: st.pieces }
    } else {
        let take: nat = if st.left < t.len() - st.dist { st.left } else { (t.len() - st.dist) as nat };
        PieceSlice {
            dist: 0,
            left: (st.left - take) as nat,
            pieces: st.pieces.push(with_text(p, t.subrange(st.dist as int, (st.dist + take) as int))),
        }
    }
}

/// The walk over the pieces `ps`, in order, from `st`.
pub open spec fn slice_pieces(st: PieceSlice, ps: Seq<PieceView>) -> PieceSlice
    decreases ps.len(),
{
    if ps.len() == 0 {
        st
    } else {
        slice_piece(slice_pieces(st, ps.drop_last()), ps.last())
    }
}

/// Where a slice stands while it walks fields: chars to skip, chars to take, and the
/// fields taken so far.
#[verifier::ext_equal]
pub struct FieldSlice {
    pub dist: nat,
    pub left: nat,
    pub fields: Seq<Seq<PieceView>>,
}

/// One field of the walk: its pieces are walked, and the pieces taken from it, if any,
/// make a field of the result.
pub open spec fn slice_field(st: FieldSlice, f: Seq<PieceView>) -> FieldSlice {
    let r = slice_pieces(PieceSlice { dist: st.dist, left: st.left, pieces: Seq::empty() }, f);
    FieldSlice {
        dist: r.dist,
        left: r.left,
        fields: if r.pieces.len() > 0 { st.fields.push(r.pieces) } else { st.fields },
    }
}

/// The walk over the fields `fs`, in order, from `st`.
pub open spec fn slice_fields(st: FieldSlice, fs: Seq<Seq<PieceView>>) -> FieldSlice
    decreases fs.len(),
{
    if fs.len() == 0 {
        st
    } else {
        slice_field(slice_fields(st, fs.drop_last()), fs.last())
    }
}

/// The fields of the chars `index..index + len` of the text of `fs`, counted across
/// fields: each piece cut to the part of it in that range, with its kind, and each field
/// that keeps no piece dropped.
pub open spec fn text_slice(fs: Seq<Seq<PieceView>>, index: nat, len: nat) -> Seq<Seq<PieceView>> {
    slice_fields(FieldSlice { dist: index, left: len, fields: Seq::empty() }, fs).fields
}

/// The `len` elements from `index` on, or as many as there are.
pub open spec fn element_slice(fs: Seq<Seq<PieceView>>, index: int, len: int) -> Seq<Seq<PieceView>> {
    fs.subrange(index, if len < fs.len() - index { index + len } else { fs.len() as int })
}

/// How many bytes a field's text takes.
pub open spec fn field_width(f: Seq<PieceView>) -> nat
    decreases f.len(),
{
    if f.len() == 0 {
        0
    } else {
        field_width(f.drop_last()) + text_width(piece_text(f.last()))
    }
}

/// How many bytes the fields' texts take together.
pub open spec fn fields_width(fs: Seq<Seq<PieceView>>) -> nat
    decreases fs.len(),
{
    if fs.len() == 0 {
        0
    } else {
        fields_width(fs.drop_last()) + field_width(fs.last())
    }
}

/// The length of an expansion, as `${#x}` counts it: for an array's elements, how many
/// there are; otherwise how many bytes its text takes.
pub open spec fn polymorphic_len_of(e: ExpansionView) -> int {
    if e.from_array {
        e.fields.len() as int
    } else {
        fields_width(e.fields) as int
    }
}

proof fn lemma_field_width_prefix(f: Seq<PieceView>, j: int)
    requires
        0 <= j <= f.len(),
    ensures
        field_width(f.take(j)) <= field_width(f),
    decreases f.len() - j,
{
    if j < f.len() {
        lemma_field_width_prefix(f, j + 1);
        assert(f.take(j + 1).drop_last() == f.take(j));
    } else {
        assert(f.take(j) == f);
    }
}

proof fn lemma_fields_width_prefix(fs: Seq<Seq<PieceView>>, i: int)
    requires
        0 <= i <= fs.len(),
    ensures
        fields_width(fs.take(i)) <= fields_width(fs),
    decreases fs.len() - i,
{
    if i < fs.len() {
        lemma_fields_width_prefix(fs, i + 1);
        assert(fs.take(i + 1).drop_last() == fs.take(i));
    } else {
        assert(fs.take(i) == fs);
    }
}

impl WordField {
    /// Returns how many bytes the field's text takes (see [`field_width`]).
    pub fn len(&self) -> (r: usize)
        requires
            field_width(self@) <= usize::MAX,
        ensures
            r == field_width(self@),
    {
        let ghost f = self@;
        let mut total: usize = 0;
        let mut j: usize = 0;
        while j < self.0.len()
            invariant
                f == self@,
                field_width(f) <= usize::MAX,
                j <= f.len(),
                total == field_width(f.take(j as int)),
            decreases f.len() - j,
        {
            proof {
                assert(f.take(j + 1).drop_last() == f.take(j as int));
                assert(f.take(j + 1).last() == self.0@[j as int]@);
                lemma_field_width_prefix(f, j + 1);
            }
            let w = text_len(self.0[j].as_str());
            total = total + w;
            j = j + 1;
        }
        proof {
            assert(f.take(f.len() as int) == f);
        }
        total
    }

    /// Returns a copy of the field.
    pub fn duplicate(&self) -> (r: Self)
        ensures
            r@ == self@,
    {
        let mut v: Vec<ExpansionPiece> = Vec::new();
        let mut j: usize = 0;
        while j < self.0.len()
            invariant
                j <= self.0@.len(),
                pieces_view(v@) == pieces_view(self.0@.take(j as int)),
            decreases self.0@.len() - j,
        {
            let p = self.0[j].duplicate();
            proof {
                assert(pieces_view(v@.push(p)) =~= pieces_view(v@).push(p@));
                assert(pieces_view(self.0@.take(j + 1)) =~= pieces_view(self.0@.take(j as int)).push(self.0@[j as int]@));
            }
            v.push(p);
            j = j + 1;
        }
        proof {
            assert(self.0@.take(self.0@.len() as int) == self.0@);
        }
        WordField(v)
    }
}

impl Expansion {
    /// Returns how the parameter this is the expansion of stands: undefined, defined but
    /// empty, or with some text.
    pub fn classify(&self) -> (r: ParameterState)
        ensures
            r == parameter_state(self@),
    {
        if self.undefined {
            return ParameterState::Undefined;
        }
        let mut i: usize = 0;
        while i < self.fields.len()
            invariant
                i <= self.fields@.len(),
                !self.undefined,
                forall|a: int, b: int| 0 <= a < i && 0 <= b < self@.fields[a].len() ==> piece_text(#[trigger] self@.fields[a][b]).len() == 0,
            decreases self.fields@.len() - i,
        {
            let field = &self.fields[i];
            proof {
                assert(self@.fields[i as int] == field@);
            }
            let mut j: usize = 0;
            while j < field.0.len()
                invariant
                    i < self.fields@.len(),
                    *field == self.fields@[i as int],
                    j <= field.0@.len(),
                    !self.undefined,
                    self@.fields[i as int] == field@,
                    forall|b: int| 0 <= b < j ==> piece_text(#[trigger] self@.fields[i as int][b]).len() == 0,
                    forall|a: int, b: int| 0 <= a < i && 0 <= b < self@.fields[a].len() ==> piece_text(#[trigger] self@.fields[a][b]).len() == 0,
                decreases field.0@.len() - j,
            {
                let t = field.0[j].as_str();
                if !t.is_empty() {
                    proof {
                        assert(self@.fields[i as int][j as int] == field.0@[j as int]@);
                        assert(piece_text(self@.fields[i as int][j as int]).len() > 0);
                    }
                    return ParameterState::NonZeroLength;
                }
                proof {
                    assert(self@.fields[i as int][j as int] == field.0@[j as int]@);
                }
                j = j + 1;
            }
            proof {
                assert forall|a: int, b: int| 0 <= a < i + 1 && 0 <= b < self@.fields[a].len() implies piece_text(#[trigger] self@.fields[a][b]).len() == 0 by {
                    if a == i {
                        assert(b < field.0@.len());
                    }
                }
            }
            i = i + 1;
        }
        ParameterState::DefinedEmptyString
    }

    /// Returns the expansion of an undefined parameter: one empty field of unquoted text.
    pub fn undefined() -> (r: Self)
        ensures
            r@ == (ExpansionView {
                fields: seq![seq![PieceView::Splittable(Seq::empty())]],
                concatenate: true,
                from_array: false,
                undefined: true,
            }),
    {
        let mut fields: Vec<WordField> = Vec::new();
        fields.push(WordField::from_text(String::new()));
        let r = Expansion { fields, concatenate: true, from_array: false, undefined: true };
        proof {
            assert(r@.fields =~= seq![seq![PieceView::Splittable(Seq::<char>::empty())]]);
        }
        r
    }

    /// Returns the expansion's length (see [`polymorphic_len_of`]).
    pub fn polymorphic_len(&self) -> (r: usize)
        requires
            polymorphic_len_of(self@) <= usize::MAX,
        ensures
            r == polymorphic_len_of(self@),
    {
        if self.from_array {
            return self.fields.len();
        }
        let ghost fs = self@.fields;
        let mut total: usize = 0;
        let mut i: usize = 0;
        while i < self.fields.len()
            invariant
                fs == self@.fields,
                !self.from_array,
                fields_width(fs) <= usize::MAX,
                i <= fs.len(),
                total == fields_width(fs.take(i as int)),
            decreases fs.len() - i,
        {
            let field = &self.fields[i];
            let ghost f = fs[i as int];
            proof {
                assert(fs.take(i + 1).drop_last() == fs.take(i as int));
                assert(fs.take(i + 1).last() == f);
                lemma_fields_width_prefix(fs, i + 1);
            }
            let mut j: usize = 0;
            while j < field.0.len()
                invariant
                    i < fs.len(),
                    f == fs[i as int],
                    f == field@,
                    fields_width(fs.take(i as int)) + field_width(f) <= usize::MAX,
                    j <= f.len(),
                    total == fields_width(fs.take(i as int)) + field_width(f.take(j as int)),
                decreases f.len() - j,
            {
                proof {
                    assert(f.take(j + 1).drop_last() == f.take(j as int));
                    assert(f.take(j + 1).last() == field.0@[j as int]@);
                    lemma_field_width_prefix(f, j + 1);
                }
                let t = field.0[j].as_str();
                let w = text_len(t);
                total = total + w;
                j = j + 1;
            }
            proof {
                assert(f.take(f.len() as int) == f);
            }
            i = i + 1;
        }
        proof {
            assert(fs.take(fs.len() as int) == fs);
        }
        total
    }

    /// Returns the slice `index..end` of the expansion: of an array's elements, the
    /// elements from `index` on, at most `end - index` of them; otherwise the chars
    /// `index..end` of its text (see [`text_slice`]). The flags are kept.
    pub fn polymorphic_subslice(&self, index: usize, end: usize) -> (r: Self)
        requires
            index <= end,
            self.from_array ==> index <= self.fields@.len(),
        ensures
            r@.concatenate == self@.concatenate,
            r@.from_array == self@.from_array,
            r@.undefined == self@.undefined,
            r@.fields == if self@.from_array {
                element_slice(self@.fields, index as int, end - index)
            } else {
                text_slice(self@.fields, index as nat, (end - index) as nat)
            },
    {
        let len = end - index;
        if self.from_array {
            let room = self.fields.len() - index;
            let actual_len = if len < room { len } else { room };
            let mut fields: Vec<WordField> = Vec::new();
            let stop = index + actual_len;
            let mut k: usize = index;
            while k < stop
                invariant
                    self.from_array,
                    stop == index + actual_len,
                    index <= k <= stop <= self.fields@.len(),
                    fields_view(fields@) == fields_view(self.fields@).subrange(index as int, k as int),
                decreases stop - k,
            {
                let f = self.fields[k].duplicate();
                proof {
                    assert(fields_view(fields@.push(f)) =~= fields_view(fields@).push(f@));
                    assert(fields_view(self.fields@).subrange(index as int, k + 1) =~= fields_view(
                        self.fields@,
                    ).subrange(index as int, k as int).push(self.fields@[k as int]@));
                }
                fields.push(f);
                k = k + 1;
            }
            let r = Expansion { fields, concatenate: self.concatenate, undefined: self.undefined, from_array: self.from_array };
            return r;
        }
        let ghost fs = self@.fields;
        let ghost init = FieldSlice { dist: index as nat, left: len as nat, fields: Seq::empty() };
        let mut fields: Vec<WordField> = Vec::new();
        let mut dist: usize = index;
        let mut left: usize = len;
        let mut i: usize = 0;
        proof {
            assert(fs.take(0) =~= Seq::<Seq<PieceView>>::empty());
            assert(fields_view(fields@) =~= Seq::<Seq<PieceView>>::empty());
        }
        while i < self.fields.len()
            invariant
                fs == self@.fields,
                i <= fs.len(),
                init == (FieldSlice { dist: index as nat, left: len as nat, fields: Seq::empty() }),
                slice_fields(init, fs.take(i as int)).dist == dist,
                slice_fields(init, fs.take(i as int)).left == left,
                slice_fields(init, fs.take(i as int)).fields == fields_view(fields@),
            decreases fs.len() - i,
        {
            let field = &self.fields[i];
            let ghost f = fs[i as int];
            let ghost start = PieceSlice { dist: dist as nat, left: left as nat, pieces: Seq::empty() };
            let mut pieces: Vec<ExpansionPiece> = Vec::new();
            let mut j: usize = 0;
            proof {
                assert(f.take(0) =~= Seq::<PieceView>::empty());
                assert(pieces_view(pieces@) =~= Seq::<PieceView>::empty());
            }
            while j < field.0.len()
                invariant
                    i < fs.len(),
                    f == fs[i as int],
                    f == field@,
                    j <= f.len(),
                    slice_pieces(start, f.take(j as int)).dist == dist,
                    slice_pieces(start, f.take(j as int)).left == left,
                    slice_pieces(start, f.take(j as int)).pieces == pieces_view(pieces@),
                decreases f.len() - j,
            {
                let piece = &field.0[j];
                proof {
                    assert(f.take(j + 1).drop_last() == f.take(j as int));
                    assert(f.take(j + 1).last() == piece@);
                }
                if left > 0 {
                    let v = text::chars_of(piece.as_str());
                    let n = v.len();
                    if dist >= n {
                        dist = dist - n;
                    } else {
                        let room = n - dist;
                        let take = if left < room { left } else { room };
                        let t = text::string_of(&v, dist, dist + take);
                        let new_piece = match piece {
                            ExpansionPiece::Unsplittable(_) => ExpansionPiece::Unsplittable(t),
                            ExpansionPiece::Splittable(_) => ExpansionPiece::Splittable(t),
                            ExpansionPiece::UnquotedLiteral(_) => ExpansionPiece::UnquotedLiteral(t),
                        };
                        proof {
                            assert(pieces_view(pieces@.push(new_piece)) =~= pieces_view(pieces@).push(new_piece@));
                        }
                        pieces.push(new_piece);
                        left = left - take;
                        dist = 0;
                    }
                }
                j = j + 1;
            }
            proof {
                assert(f.take(f.len() as int) == f);
                assert(fs.take(i + 1).drop_last() == fs.take(i as int));
                assert(fs.take(i + 1).last() == f);
            }
            if pieces.len() > 0 {
                let nf = WordField(pieces);
                proof {
                    assert(fields_view(fields@.push(nf)) =~= fields_view(fields@).push(nf@));
                }
                fields.push(nf);
            }
            i = i + 1;
        }
        proof {
            assert(fs.take(fs.len() as int) == fs);
        }
        Expansion { fields, concatenate: self.concatenate, undefined: self.undefined, from_array: self.from_array }
    }
}

/// The chars of `t` from `d` on, at most `l` of them: the slice of `t` that a walk
/// skipping `d` chars and taking `l` takes.
pub open spec fn taken(t: Seq<char>, d: nat, l: nat) -> Seq<char> {
    let n = t.len();
    t.subrange(if d < n { d as int } else { n as int }, if d + l < n { (d + l) as int } else { n as int })
}

/// How many chars are still to skip after `t`, from `d`.
pub open spec fn after_dist(t: Seq<char>, d: nat) -> nat {
    if d >= t.len() {
        (d - t.len()) as nat
    } else {
        0
    }
}

proof fn lemma_taken_concat(a: Seq<char>, b: Seq<char>, d: nat, l: nat)
    ensures
        taken(a, d, l).len() <= l,
        taken(a + b, d, l) == taken(a, d, l) + taken(b, after_dist(a, d), (l - taken(a, d, l).len()) as nat),
        after_dist(a + b, d) == after_dist(b, after_dist(a, d)),
{
    let ab = a + b;
    let na = a.len();
    let nb = b.len();
    if d >= na {
        assert(taken(a, d, l) =~= Seq::<char>::empty());
        assert(taken(ab, d, l) =~= taken(b, (d - na) as nat, l));
        assert(Seq::<char>::empty() + taken(b, (d - na) as nat, l) =~= taken(b, (d - na) as nat, l));
    } else if d + l <= na {
        assert(taken(ab, d, l) =~= taken(a, d, l));
        assert(taken(b, 0, 0) =~= Seq::<char>::empty());
        assert(taken(a, d, l) + Seq::<char>::empty() =~= taken(a, d, l));
    } else {
        let rest: nat = (d + l - na) as nat;
        assert(taken(a, d, l) =~= a.subrange(d as int, na as int));
        assert(taken(ab, d, l) =~= a.subrange(d as int, na as int) + taken(b, 0, rest));
    }
}

proof fn lemma_taken_none(t: Seq<char>, d: nat)
    ensures
        taken(t, d, 0) == Seq::<char>::empty(),
{
    assert(taken(t, d, 0) =~= Seq::<char>::empty());
}

/// The walk over pieces has taken, of their joined text `t`, what [`taken`] says, from
/// where it started (`d0` to skip, `l0` to take).
pub open spec fn pieces_walked(r: PieceSlice, t: Seq<char>, d0: nat, l0: nat) -> bool {
    &&& field_text(r.pieces) == taken(t, d0, l0)
    &&& r.left == l0 - taken(t, d0, l0).len()
    &&& r.left > 0 ==> r.dist == after_dist(t, d0)
}

proof fn lemma_field_text_push_piece(f: Seq<PieceView>, p: PieceView)
    ensures
        field_text(f.push(p)) == field_text(f) + piece_text(p),
{
    assert(f.push(p).drop_last() =~= f);
}

proof fn lemma_slice_pieces_walked(d0: nat, l0: nat, ps: Seq<PieceView>)
    ensures
        pieces_walked(slice_pieces(PieceSlice { dist: d0, left: l0, pieces: Seq::empty() }, ps), field_text(ps), d0, l0),
    decreases ps.len(),
{
    let st0 = PieceSlice { dist: d0, left: l0, pieces: Seq::empty() };
    if ps.len() == 0 {
        assert(field_text(Seq::<PieceView>::empty()) =~= Seq::<char>::empty());
        assert(taken(Seq::<char>::empty(), d0, l0) =~= Seq::<char>::empty());
    } else {
        let prev_ps = ps.drop_last();
        lemma_slice_pieces_walked(d0, l0, prev_ps);
        let st = slice_pieces(st0, prev_ps);
        let p = ps.last();
        let t = piece_text(p);
        let u = field_text(prev_ps);
        lemma_taken_concat(u, t, d0, l0);
        let r = slice_piece(st, p);
        if st.left == 0 {
            lemma_taken_none(t, after_dist(u, d0));
            assert(taken(u, d0, l0) + Seq::<char>::empty() =~= taken(u, d0, l0));
        } else if st.dist >= t.len() {
            assert(taken(t, st.dist, st.left) =~= Seq::<char>::empty());
            assert(taken(u, d0, l0) + Seq::<char>::empty() =~= taken(u, d0, l0));
        } else {
            let take: nat = if st.left < t.len() - st.dist { st.left } else { (t.len() - st.dist) as nat };
            assert(taken(t, st.dist, st.left) =~= t.subrange(st.dist as int, (st.dist + take) as int));
            lemma_field_text_push_piece(st.pieces, with_text(p, t.subrange(st.dist as int, (st.dist + take) as int)));
        }
        assert(field_text(ps) == u + t);
    }
}

/// The walk over fields has taken, of their joined text `t`, what [`taken`] says.
pub open spec fn fields_walked(r: FieldSlice, t: Seq<char>, index: nat, len: nat) -> bool {
    &&& all_text(r.fields) == taken(t, index, len)
    &&& r.left == len - taken(t, index, len).len()
    &&& r.left > 0 ==> r.dist == after_dist(t, index)
}

proof fn lemma_slice_fields_walked(index: nat, len: nat, fs: Seq<Seq<PieceView>>)
    ensures
        fields_walked(slice_fields(FieldSlice { dist: index, left: len, fields: Seq::empty() }, fs), all_text(fs), index, len),
    decreases fs.len(),
{
    let st0 = FieldSlice { dist: index, left: len, fields: Seq::empty() };
    if fs.len() == 0 {
        assert(all_text(Seq::<Seq<PieceView>>::empty()) =~= Seq::<char>::empty());
        assert(taken(Seq::<char>::empty(), index, len) =~= Seq::<char>::empty());
    } else {
        let prev = fs.drop_last();
        lemma_slice_fields_walked(index, len, prev);
        let st = slice_fields(st0, prev);
        let f = fs.last();
        let t = field_text(f);
        let u = all_text(prev);
        lemma_taken_concat(u, t, index, len);
        lemma_slice_pieces_walked(st.dist, st.left, f);
        let r = slice_pieces(PieceSlice { dist: st.dist, left: st.left, pieces: Seq::empty() }, f);
        if st.left == 0 {
            lemma_taken_none(t, after_dist(u, index));
            lemma_taken_none(t, st.dist);
        }
        lemma_taken_concat(t, Seq::<char>::empty(), st.dist, st.left);
        if r.pieces.len() > 0 {
            assert(st.fields.push(r.pieces).drop_last() =~= st.fields);
        } else {
            assert(r.pieces =~= Seq::<PieceView>::empty());
            assert(field_text(r.pieces) =~= Seq::<char>::empty());
        }
        assert(all_text(fs) == u + t);
        assert(taken(u, index, len) + Seq::<char>::empty() =~= taken(u, index, len));
    }
}

/// A slice of an expansion's text takes exactly the chars `index..index + len` of its
/// text (as far as the text goes).
pub proof fn law_text_slice_is_substring(fs: Seq<Seq<PieceView>>, index: nat, len: nat)
    ensures
        all_text(text_slice(fs, index, len)) == taken(all_text(fs), index, len),
{
    lemma_slice_fields_walked(index, len, fs);
}

/// The fields `b` joined onto `a`: the first of `b` continues the last of `a`, the others
/// follow it.
pub open spec fn joined(a: Seq<Seq<PieceView>>, b: Seq<Seq<PieceView>>) -> Seq<Seq<PieceView>> {
    if b.len() == 0 {
        a
    } else if a.len() == 0 {
        b
    } else {
        a.drop_last().push(a.last() + b[0]) + b.skip(1)
    }
}

/// The expansions `es` joined into one, in order: their fields joined (see [`joined`]),
/// with the last one's flags for concatenation and arrays; the result is never undefined.
pub open spec fn coalesced(es: Seq<ExpansionView>) -> ExpansionView
    decreases es.len(),
{
    if es.len() == 0 {
        ExpansionView { fields: Seq::empty(), concatenate: true, from_array: false, undefined: false }
    } else {
        let acc = coalesced(es.drop_last());
        let e = es.last();
        ExpansionView {
            fields: joined(acc.fields, e.fields),
            concatenate: e.concatenate,
            from_array: e.from_array,
            undefined: acc.undefined,
        }
    }
}

/// The expansions as values.
pub open spec fn expansions_view(es: Seq<Expansion>) -> Seq<ExpansionView> {
    es.map_values(|e: Expansion| e@)
}

/// Joins the expansions of the parts of a word into one (see [`coalesced`]).
pub fn coalesce_expansions(expansions: Vec<Expansion>) -> (r: Expansion)
    ensures
        r@ == coalesced(expansions_view(expansions@)),
{
    let ghost es = expansions_view(expansions@);
    let mut acc = Expansion { fields: Vec::new(), concatenate: true, from_array: false, undefined: false };
    let mut k: usize = 0;
    proof {
        assert(es.take(0) =~= Seq::<ExpansionView>::empty());
        assert(acc@ =~= coalesced(es.take(0)));
    }
    while k < expansions.len()
        invariant
            es == expansions_view(expansions@),
            k <= expansions@.len(),
            acc@ == coalesced(es.take(k as int)),
        decreases expansions@.len() - k,
    {
        let e = &expansions[k];
        let ghost before = fields_view(acc.fields@);
        let mut i: usize = 0;
        while i < e.fields.len()
            invariant
                k < expansions@.len(),
                *e == expansions@[k as int],
                es == expansions_view(expansions@),
                before == coalesced(es.take(k as int)).fields,
                acc.undefined == coalesced(es.take(k as int)).undefined,
                i <= e.fields@.len(),
                fields_view(acc.fields@) == joined(before, fields_view(e.fields@).take(i as int)),
            decreases e.fields@.len() - i,
        {
            let field = e.fields[i].duplicate();
            let ghost jb = fields_view(e.fields@).take(i + 1);
            proof {
                let fv = fields_view(e.fields@);
                assert(fv[i as int] == field@);
                if i > 0 {
                    assert(jb.skip(1) =~= fv.take(i as int).skip(1).push(field@));
                    assert(jb[0] == fv.take(i as int)[0]);
                    assert(jb.drop_last() =~= fv.take(i as int));
                } else {
                    assert(jb =~= seq![field@]);
                    assert(jb.skip(1) =~= Seq::<Seq<PieceView>>::empty());
                    assert(fv.take(0) =~= Seq::<Seq<PieceView>>::empty());
                }
            }
            if i == 0 && acc.fields.len() > 0 {
                let mut last = acc.fields.pop().unwrap();
                let ghost last_before = last@;
                let mut j: usize = 0;
                while j < field.0.len()
                    invariant
                        j <= field.0@.len(),
                        last@ == last_before + field@.take(j as int),
                    decreases field.0@.len() - j,
                {
                    let p = field.0[j].duplicate();
                    proof {
                        assert(pieces_view(last.0@.push(p)) =~= pieces_view(last.0@).push(p@));
                        assert(field@.take(j + 1) =~= field@.take(j as int).push(p@));
                    }
                    last.0.push(p);
                    j = j + 1;
                }
                proof {
                    assert(field@.take(field@.len() as int) == field@);
                    assert(fields_view(acc.fields@.push(last)) =~= fields_view(acc.fields@).push(last@));
                }
                acc.fields.push(last);
                proof {
                    assert(fields_view(acc.fields@) =~= joined(before, jb));
                }
            } else {
                proof {
                    assert(fields_view(acc.fields@.push(field)) =~= fields_view(acc.fields@).push(field@));
                }
                acc.fields.push(field);
                proof {
                    assert(fields_view(acc.fields@) =~= joined(before, jb));
                }
            }
            i = i + 1;
        }
        proof {
            assert(fields_view(e.fields@).take(e.fields@.len() as int) == fields_view(e.fields@));
            assert(es.take(k + 1).drop_last() == es.take(k as int));
            assert(es.take(k + 1).last() == e@);
        }
        acc.concatenate = e.concatenate;
        acc.from_array = e.from_array;
        proof {
            assert(acc@ =~= coalesced(es.take(k + 1)));
        }
        k = k + 1;
    }
    proof {
        assert(es.take(es.len() as int) == es);
    }
    acc
}

proof fn lemma_field_text_concat(f: Seq<PieceView>, g: Seq<PieceView>)
    ensures
        field_text(f + g) == field_text(f) + field_text(g),
    decreases g.len(),
{
    if g.len() == 0 {
        assert(f + g =~= f);
        assert(field_text(f) + Seq::<char>::empty() =~= field_text(f));
    } else {
        lemma_field_text_concat(f, g.drop_last());
        assert((f + g).drop_last() =~= f + g.drop_last());
        assert((f + g).last() == g.last());
        assert(field_text(f) + field_text(g.drop_last()) + piece_text(g.last()) =~= field_text(f) + (field_text(g.drop_last())
            + piece_text(g.last())));
    }
}

proof fn lemma_all_text_concat(a: Seq<Seq<PieceView>>, b: Seq<Seq<PieceView>>)
    ensures
        all_text(a + b) == all_text(a) + all_text(b),
    decreases b.len(),
{
    if b.len() == 0 {
        assert(a + b =~= a);
        assert(all_text(a) + Seq::<char>::empty() =~= all_text(a));
    } else {
        lemma_all_text_concat(a, b.drop_last());
        assert((a + b).drop_last() =~= a + b.drop_last());
        assert((a + b).last() == b.last());
        assert(all_text(a) + all_text(b.drop_last()) + field_text(b.last()) =~= all_text(a) + (all_text(b.drop_last())
            + field_text(b.last())));
    }
}

proof fn lemma_all_text_joined(a: Seq<Seq<PieceView>>, b: Seq<Seq<PieceView>>)
    ensures
        all_text(joined(a, b)) == all_text(a) + all_text(b),
{
    if b.len() == 0 {
        assert(all_text(b) =~= Seq::<char>::empty());
        assert(all_text(a) + Seq::<char>::empty() =~= all_text(a));
    } else if a.len() == 0 {
        assert(all_text(a) =~= Seq::<char>::empty());
        assert(Seq::<char>::empty() + all_text(b) =~= all_text(b));
    } else {
        let head = a.drop_last().push(a.last() + b[0]);
        lemma_all_text_concat(head, b.skip(1));
        assert(head.drop_last() =~= a.drop_last());
        lemma_field_text_concat(a.last(), b[0]);
        assert(b =~= seq![b[0]] + b.skip(1));
        lemma_all_text_concat(seq![b[0]], b.skip(1));
        assert(seq![b[0]].drop_last() =~= Seq::<Seq<PieceView>>::empty());
        assert(seq![b[0]].last() == b[0]);
        assert(all_text(Seq::<Seq<PieceView>>::empty()) =~= Seq::<char>::empty());
        assert(all_text(seq![b[0]]) == all_text(seq![b[0]].drop_last()) + field_text(b[0]));
        assert(Seq::<char>::empty() + field_text(b[0]) =~= field_text(b[0]));
        assert(a =~= a.drop_last().push(a.last()));
        assert(all_text(a) == all_text(a.drop_last()) + field_text(a.last()));
        assert(all_text(a.drop_last()) + (field_text(a.last()) + field_text(b[0])) + all_text(b.skip(1)) =~= all_text(a.drop_last())
            + field_text(a.last()) + (field_text(b[0]) + all_text(b.skip(1))));
    }
}

/// The texts of the expansions `es`, joined.
pub open spec fn expansions_text(es: Seq<ExpansionView>) -> Seq<char>
    decreases es.len(),
{
    if es.len() == 0 {
        Seq::empty()
    } else {
        expansions_text(es.drop_last()) + all_text(es.last().fields)
    }
}

/// Joining expansions keeps their text: the text of the result is theirs, in order.
pub proof fn law_coalescing_keeps_text(es: Seq<ExpansionView>)
    ensures
        all_text(coalesced(es).fields) == expansions_text(es),
    decreases es.len(),
{
    if es.len() == 0 {
        assert(all_text(Seq::<Seq<PieceView>>::empty()) =~= Seq::<char>::empty());
    } else {
        law_coalescing_keeps_text(es.drop_last());
        lemma_all_text_joined(coalesced(es.drop_last()).fields, es.last().fields);
    }
}

/// Whether a `$` that is not escaped stands right before position `i` of `s`.
pub open spec fn after_unescaped_dollar(s: Seq<char>, i: int) -> bool {
    i > 0 && s[i - 1] == '$' && !(i > 1 && s[i - 2] == '\\')
}

/// Whether `s` holds the char `c` at a position not right after an unescaped `$`.
pub open spec fn has_free_char(s: Seq<char>, c: char) -> bool {
    exists|i: int| 0 <= i < s.len() && s[i] == c && !#[trigger] after_unescaped_dollar(s, i)
}

/// A quick test of whether `s` may hold a brace expression worth parsing: an opening and
/// a closing brace, neither right after an unescaped `$`, in any order.
pub open spec fn may_hold_braces(s: Seq<char>) -> bool {
    has_free_char(s, '{') && has_free_char(s, '}')
}

/// Returns whether `s` may hold a brace expression worth parsing (see
/// [`may_hold_braces`]); braces of a parameter expansion such as `${x}` do not count.
pub fn may_contain_braces_to_expand(s: &str) -> (r: bool)
    ensures
        r == may_hold_braces(s@),
{
    let v = text::chars_of(s);
    let mut last_was_unescaped_dollar_sign = false;
    let mut last_was_escape = false;
    let mut saw_opening_brace = false;
    let mut saw_closing_brace = false;
    let mut k: usize = 0;
    while k < v.len()
        invariant
            v@ == s@,
            k <= v@.len(),
            last_was_unescaped_dollar_sign == after_unescaped_dollar(s@, k as int),
            last_was_escape == (k > 0 && s@[k - 1] == '\\'),
            saw_opening_brace == exists|i: int| 0 <= i < k && s@[i] == '{' && !#[trigger] after_unescaped_dollar(s@, i),
            saw_closing_brace == exists|i: int| 0 <= i < k && s@[i] == '}' && !#[trigger] after_unescaped_dollar(s@, i),
        decreases v@.len() - k,
    {
        let c = text::char_at(&v, k);
        if !last_was_unescaped_dollar_sign {
            if c == '{' {
                saw_opening_brace = true;
            } else if c == '}' {
                saw_closing_brace = true;
                if saw_opening_brace {
                    proof {
                        assert(s@[k as int] == '}' && !after_unescaped_dollar(s@, k as int));
                    }
                    return true;
                }
            }
        }
        proof {
            assert forall|i: int| 0 <= i < k + 1 && s@[i] == '{' && !#[trigger] after_unescaped_dollar(s@, i)
                implies (i < k || (c == '{' && !last_was_unescaped_dollar_sign)) by {}
        }
        last_was_unescaped_dollar_sign = !last_was_escape && c == '$';
        last_was_escape = c == '\\';
        k = k + 1;
    }
    saw_opening_brace && saw_closing_brace
}

} // verus!
