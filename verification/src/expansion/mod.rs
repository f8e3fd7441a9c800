//! Pieces of word expansion that stand apart from the shell: the shape of an expansion's
//! result (fields made of quoted and unquoted pieces), field splitting on `IFS`, and the
//! text transformations parameter expansion applies.

pub mod assign;
pub mod fieldsplit;
pub mod parameter;
pub mod shape;
pub mod word;

use vstd::prelude::*;

use crate::text;

verus! {

/// A piece of an expansion's result.
#[derive(Clone, Debug, PartialEq)]
pub enum ExpansionPiece {
    /// Quoted text: never split.
    Unsplittable(String),
    /// Unquoted expansion output: split on `IFS`.
    Splittable(String),
    /// The word's own unquoted literal text: never split.
    UnquotedLiteral(String),
}

/// A piece as values.
pub enum PieceView {
    /// Quoted text.
    Unsplittable(Seq<char>),
    /// Unquoted expansion output.
    Splittable(Seq<char>),
    /// The word's own unquoted literal text.
    UnquotedLiteral(Seq<char>),
}

/// The text of a piece, whatever its kind.
pub open spec fn piece_text(p: PieceView) -> Seq<char> {
    match p {
        PieceView::Unsplittable(s) => s,
        PieceView::Splittable(s) => s,
        PieceView::UnquotedLiteral(s) => s,
    }
}

impl ExpansionPiece {
    /// The piece as values.
    pub open spec fn view(&self) -> PieceView {
        match self {
            ExpansionPiece::Unsplittable(s) => PieceView::Unsplittable(s@),
            ExpansionPiece::Splittable(s) => PieceView::Splittable(s@),
            ExpansionPiece::UnquotedLiteral(s) => PieceView::UnquotedLiteral(s@),
        }
    }

    /// Returns the piece's text.
    pub fn as_str(&self) -> (r: &str)
        ensures
            r@ == piece_text(self@),
    {
        match self {
            ExpansionPiece::Unsplittable(s) => s.as_str(),
            ExpansionPiece::Splittable(s) => s.as_str(),
            ExpansionPiece::UnquotedLiteral(s) => s.as_str(),
        }
    }

    /// Returns a copy of the piece.
    pub fn duplicate(&self) -> (r: Self)
        ensures
            r@ == self@,
    {
        match self {
            ExpansionPiece::Unsplittable(s) => ExpansionPiece::Unsplittable(s.clone()),
            ExpansionPiece::Splittable(s) => ExpansionPiece::Splittable(s.clone()),
            ExpansionPiece::UnquotedLiteral(s) => ExpansionPiece::UnquotedLiteral(s.clone()),
        }
    }

    /// Returns the piece as quoted text, which is never split.
    pub fn make_unsplittable(self) -> (r: Self)
        ensures
            r@ == PieceView::Unsplittable(piece_text(self@)),
    {
        match self {
            ExpansionPiece::Unsplittable(s) => ExpansionPiece::Unsplittable(s),
            ExpansionPiece::Splittable(s) => ExpansionPiece::Unsplittable(s),
            ExpansionPiece::UnquotedLiteral(s) => ExpansionPiece::Unsplittable(s),
        }
    }
}

/// The pieces as values.
pub open spec fn pieces_view(ps: Seq<ExpansionPiece>) -> Seq<PieceView> {
    ps.map_values(|p: ExpansionPiece| p@)
}

/// A field of an expansion's result: the pieces it is made of.
#[derive(Clone, Debug, PartialEq)]
pub struct WordField(pub Vec<ExpansionPiece>);

impl WordField {
    /// The field's pieces as values.
    pub open spec fn view(&self) -> Seq<PieceView> {
        pieces_view(self.0@)
    }

    /// Returns an empty field.
    pub fn new() -> (r: Self)
        ensures
            r@ == Seq::<PieceView>::empty(),
    {
        let r = WordField(Vec::new());
        proof {
            assert(r@ =~= Seq::<PieceView>::empty());
        }
        r
    }

    /// Returns a field of one piece.
    pub fn from_piece(piece: ExpansionPiece) -> (r: Self)
        ensures
            r@ == seq![piece@],
    {
        let mut v = Vec::new();
        v.push(piece);
        let r = WordField(v);
        proof {
            assert(r@ =~= seq![piece@]);
        }
        r
    }

    /// Returns a field of unquoted expansion output.
    pub fn from_text(value: String) -> (r: Self)
        ensures
            r@ == seq![PieceView::Splittable(value@)],
    {
        WordField::from_piece(ExpansionPiece::Splittable(value))
    }

    /// Returns the field's text: its pieces' texts, in order.
    pub fn text(&self) -> (r: String)
        ensures
            r@ == field_text(self@),
    {
        let mut r = String::new();
        let mut i: usize = 0;
        while i < self.0.len()
            invariant
                i <= self.0@.len(),
                r@ == field_text(pieces_view(self.0@.take(i as int))),
            decreases self.0@.len() - i,
        {
            proof {
                assert(pieces_view(self.0@.take(i + 1)).drop_last() == pieces_view(self.0@.take(i as int)));
            }
            text::push_str(&mut r, self.0[i].as_str());
            i = i + 1;
        }
        proof {
            assert(self.0@.take(self.0@.len() as int) == self.0@);
        }
        r
    }
}

impl Default for WordField {
    fn default() -> (r: Self)
        ensures
            r@ == Seq::<PieceView>::empty(),
    {
        WordField::new()
    }
}

/// The result of expanding a word: its fields, and how it came about.
#[derive(Debug)]
pub struct Expansion {
    /// The fields.
    pub fields: Vec<WordField>,
    /// Whether the fields are to be joined into one.
    pub concatenate: bool,
    /// Whether the fields are an array's elements.
    pub from_array: bool,
    /// Whether the expansion is of an undefined parameter.
    pub undefined: bool,
}

/// The fields as values.
pub open spec fn fields_view(fs: Seq<WordField>) -> Seq<Seq<PieceView>> {
    fs.map_values(|f: WordField| f@)
}

impl Default for Expansion {
    fn default() -> (r: Self)
        ensures
            r.fields@.len() == 0,
            r.concatenate,
            !r.from_array,
            !r.undefined,
    {
        Expansion { fields: Vec::new(), concatenate: true, from_array: false, undefined: false }
    }
}

/// A field's text: its pieces' texts, in order.
pub open spec fn field_text(f: Seq<PieceView>) -> Seq<char>
    decreases f.len(),
{
    if f.len() == 0 {
        Seq::empty()
    } else {
        field_text(f.drop_last()) + piece_text(f.last())
    }
}

/// Whether `c` takes on `IFS` the role of whitespace: it is in the C locale's `isspace`
/// set, which is what bash consults (space, tab, newline, carriage return, vertical tab
/// and form feed).
pub open spec fn is_ifs_whitespace(c: char) -> bool {
    c == ' ' || c == '\t' || c == '\n' || c == '\r' || c == '\u{0b}' || c == '\u{0c}'
}

/// The name of the uppercase form of `c`: what `char::to_uppercase` gives, which may be
/// more than one char.
pub uninterp spec fn uppercase_of(c: char) -> Seq<char>;

/// Returns the uppercase form of `c` (`char::to_uppercase`, collected into a string). The
/// contract names the result, which depends on `c` alone, and claims that it has at least
/// one char, as the documentation says the iterator yields one or more; Unicode's case
/// mapping itself is left to the standard library.
#[verifier::external_body]
pub(crate) fn to_uppercase(c: char) -> (r: String)
    ensures
        r@ == uppercase_of(c),
        r@.len() >= 1,
{
    c.to_uppercase().collect()
}

/// The name of the lowercase form of `c`: what `char::to_lowercase` gives, which may be
/// more than one char.
pub uninterp spec fn lowercase_of(c: char) -> Seq<char>;

/// Returns the lowercase form of `c` (`char::to_lowercase`, collected into a string): the
/// contract names the result, which depends on `c` alone, and claims that it has at least
/// one char, as the documentation says the iterator yields one or more.
#[verifier::external_body]
pub(crate) fn to_lowercase(c: char) -> (r: String)
    ensures
        r@ == lowercase_of(c),
        r@.len() >= 1,
{
    c.to_lowercase().collect()
}

/// `s` with the first char of each word capitalized: each char that is not whitespace and
/// starts `s` or follows whitespace is replaced with its uppercase form.
pub open spec fn initial_capitals(s: Seq<char>) -> Seq<char>
    decreases s.len(),
{
    if s.len() == 0 {
        Seq::empty()
    } else {
        let i = s.len() - 1;
        initial_capitals(s.drop_last()) + if !text::is_white_space(s[i]) && (i == 0 || text::is_white_space(s[i - 1])) {
            uppercase_of(s[i])
        } else {
            seq![s[i]]
        }
    }
}

/// Returns `s` with the first char of each word capitalized (see [`initial_capitals`]).
pub fn to_initial_capitals(s: &str) -> (r: String)
    ensures
        r@ == initial_capitals(s@),
{
    let v = text::chars_of(s);
    let mut result = String::new();
    let mut capitalize_next = true;
    let mut i: usize = 0;
    while i < v.len()
        invariant
            v@ == s@,
            i <= v@.len(),
            capitalize_next == (i == 0 || text::is_white_space(v@[i - 1])),
            result@ == initial_capitals(v@.take(i as int)),
        decreases v@.len() - i,
    {
        let c = text::char_at(&v, i);
        proof {
            assert(v@.take(i + 1).drop_last() == v@.take(i as int));
            assert(v@.take(i + 1)[i as int] == c);
            if i > 0 {
                assert(v@.take(i + 1)[i - 1] == v@[i - 1]);
            }
        }
        if text::is_whitespace(c) {
            capitalize_next = true;
            text::push_char(&mut result, c);
        } else if capitalize_next {
            let upper = to_uppercase(c);
            text::push_str(&mut result, upper.as_str());
            capitalize_next = false;
        } else {
            text::push_char(&mut result, c);
        }
        i = i + 1;
    }
    proof {
        assert(v@.take(v@.len() as int) == v@);
    }
    result
}

/// The name of the uppercase form of the text `s`: what `str::to_uppercase` gives.
pub uninterp spec fn uppercase_text(s: Seq<char>) -> Seq<char>;

/// Returns the uppercase form of `s` (`str::to_uppercase`). The contract only names the
/// result, which depends on `s` alone; Unicode's case mapping is left to the standard
/// library.
#[verifier::external_body]
pub(crate) fn str_to_uppercase(s: &str) -> (r: String)
    ensures
        r@ == uppercase_text(s@),
{
    s.to_uppercase()
}

/// The name of the lowercase form of the text `s`: what `str::to_lowercase` gives.
pub uninterp spec fn lowercase_text(s: Seq<char>) -> Seq<char>;

/// Returns the lowercase form of `s` (`str::to_lowercase`). The contract only names the
/// result, which depends on `s` alone (a final sigma is lowercased by its context within
/// `s`); Unicode's case mapping is left to the standard library.
#[verifier::external_body]
pub(crate) fn str_to_lowercase(s: &str) -> (r: String)
    ensures
        r@ == lowercase_text(s@),
{
    s.to_lowercase()
}

} // verus!
