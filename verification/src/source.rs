//! Positions in, and descriptions of, shell source text.

use vstd::prelude::*;

verus! {

/// A position in source text.
#[derive(Clone, Copy, Debug, PartialEq, Eq, Structural)]
pub struct SourcePosition {
    /// The 0-based index of the char in the text.
    pub index: usize,
    /// The 1-based line number.
    pub line: usize,
    /// The 1-based column number.
    pub column: usize,
}

/// Where source text comes from, and where in it a part of it starts.
#[derive(Debug)]
pub struct SourceInfo {
    /// The source of the text (a file name, or a description).
    pub source: String,
    /// The position where the text starts, if known.
    pub start: Option<SourcePosition>,
}

impl SourceInfo {
    /// Makes a source description with no start position.
    pub fn from_source(source: &str) -> (r: Self)
        ensures
            r.source@ == source@,
            r.start is None,
    {
        SourceInfo { source: source.to_owned(), start: None }
    }

    /// Returns a copy of this source description.
    pub fn duplicate(&self) -> (r: Self)
        ensures
            r.source@ == self.source@,
            r.start == self.start,
    {
        SourceInfo { source: self.source.clone(), start: self.start }
    }
}

impl Default for SourceInfo {
    fn default() -> (r: Self)
        ensures
            r.source@ == Seq::<char>::empty(),
            r.start is None,
    {
        SourceInfo { source: String::new(), start: None }
    }
}

} // verus!
