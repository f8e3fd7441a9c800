//! Programmable command completion: the specs and options that generate candidates, and
//! the model of the line being completed -- the words in it, how it is quoted, and the
//! edits that candidates make of it.

pub mod actions;
pub mod files;
pub mod config;
pub mod edits;
pub mod generate;
pub mod quoting;
pub mod words;
pub mod wordlist;

pub use config::{CompleteAction, Config, Spec, SpecName, SpecialSpec};

use std::ops::Range;
use vstd::prelude::*;

verus! {

/// What kind of candidate a [`Candidate`] is.
#[derive(Clone, Copy, Debug, Eq, Hash, PartialEq, Structural)]
#[non_exhaustive]
pub enum CandidateKind {
    /// A file name: a candidate completed as one, which applies to all of a completion's
    /// candidates.
    FileName {
        /// Whether it names a directory.
        is_dir: bool,
    },
    /// Anything else.
    Other,
}

/// A candidate, once it's known what it names, before it's made an edit.
#[derive(Clone, Debug, Eq, Hash, PartialEq)]
pub struct ResolvedCandidate {
    /// The candidate's text, unquoted.
    pub text: String,
    /// What kind of candidate it is.
    pub kind: CandidateKind,
    /// For a file name that `text` names only once expanded (e.g. `~/Documents` or
    /// `$HOME/Documents`), the expanded name.
    pub expanded: Option<String>,
}

/// The text of an optional string.
pub open spec fn opt_text(o: Option<String>) -> Option<Seq<char>> {
    match o {
        Some(s) => Some(s@),
        None => None,
    }
}

/// A resolved candidate as values: its text, kind, and expanded name.
pub struct CandidateView {
    pub text: Seq<char>,
    pub kind: CandidateKind,
    pub expanded: Option<Seq<char>>,
}

impl ResolvedCandidate {
    /// The candidate as values.
    pub open spec fn view(&self) -> CandidateView {
        CandidateView { text: self.text@, kind: self.kind, expanded: opt_text(self.expanded) }
    }

    /// Returns a candidate with the given text, which isn't a file name.
    pub fn new(text: &str) -> (r: Self)
        ensures
            r@ == (CandidateView { text: text@, kind: CandidateKind::Other, expanded: None }),
    {
        ResolvedCandidate { text: text.to_owned(), kind: CandidateKind::Other, expanded: None }
    }

    /// Returns a candidate for the file name `text`, which names a directory if it ends
    /// with a `/`.
    pub fn file_name(text: &str) -> (r: Self)
        ensures
            r@ == (CandidateView {
                text: text@,
                kind: CandidateKind::FileName { is_dir: text@.len() > 0 && text@.last() == '/' },
                expanded: None,
            }),
    {
        let v = crate::text::chars_of(text);
        let is_dir = v.len() > 0 && v[v.len() - 1] == '/';
        ResolvedCandidate {
            text: text.to_owned(),
            kind: CandidateKind::FileName { is_dir },
            expanded: None,
        }
    }
}

/// Options influencing how command completions are generated. Each one's name (e.g.
/// `nospace`) is what `complete -o` takes; they're declared in the order bash lists them.
#[derive(Clone, Copy, Debug, Eq, Hash, Ord, PartialEq, PartialOrd, Structural)]
pub enum CompleteOption {
    /// Perform rest of default completions if no completions are generated.
    BashDefault,
    /// Use default filename completion if no completions are generated.
    Default,
    /// Treat completions as directory names.
    DirNames,
    /// Treat completions as filenames.
    FileNames,
    /// Suppress default auto-quotation of completions.
    NoQuote,
    /// Do not sort completions.
    NoSort,
    /// Do not append a trailing space to completions at the end of the input line.
    NoSpace,
    /// Also generate directory completions.
    PlusDirs,
}

/// Options for generating completions: which [`CompleteOption`]s are enabled, one flag
/// per option, so that two values are equal exactly when they enable the same options.
#[derive(Clone, Debug, Eq, PartialEq)]
pub struct GenerationOptions {
    bash_default: bool,
    default: bool,
    dir_names: bool,
    file_names: bool,
    no_quote: bool,
    no_sort: bool,
    no_space: bool,
    plus_dirs: bool,
}

impl GenerationOptions {
    /// Whether `option` is enabled.
    pub closed spec fn enables(&self, option: CompleteOption) -> bool {
        match option {
            CompleteOption::BashDefault => self.bash_default,
            CompleteOption::Default => self.default,
            CompleteOption::DirNames => self.dir_names,
            CompleteOption::FileNames => self.file_names,
            CompleteOption::NoQuote => self.no_quote,
            CompleteOption::NoSort => self.no_sort,
            CompleteOption::NoSpace => self.no_space,
            CompleteOption::PlusDirs => self.plus_dirs,
        }
    }

    /// The options enabled.
    pub closed spec fn view(&self) -> Set<CompleteOption> {
        Set::new(|o: CompleteOption| self.enables(o))
    }

    /// Returns options with just the given ones enabled.
    pub fn from_options(options: &[CompleteOption]) -> (r: Self)
        ensures
            r@ == options@.to_set(),
    {
        let mut r = GenerationOptions::default();
        let mut i: usize = 0;
        while i < options.len()
            invariant
                i <= options@.len(),
                r@ == options@.take(i as int).to_set(),
            decreases options@.len() - i,
        {
            proof {
                let t = options@.take(i as int);
                let o = options@[i as int];
                assert(options@.take(i + 1) == t.push(o));
                assert forall|x: CompleteOption| #[trigger] t.push(o).contains(x) <==> (t.contains(x) || x == o) by {
                    if t.contains(x) {
                        let j = choose|j: int| 0 <= j < t.len() && t[j] == x;
                        assert(t.push(o)[j] == x);
                    }
                    if t.push(o).contains(x) && x != o {
                        let j = choose|j: int| 0 <= j < t.push(o).len() && t.push(o)[j] == x;
                        assert(t[j] == x);
                    }
                    assert(t.push(o)[t.len() as int] == o);
                }
                assert(options@.take(i + 1).to_set() =~= t.to_set().insert(o));
            }
            r.set(options[i], true);
            i = i + 1;
        }
        proof {
            assert(options@.take(options@.len() as int) == options@);
        }
        r
    }

    /// Returns whether `option` is enabled.
    pub fn get(&self, option: CompleteOption) -> (r: bool)
        ensures
            r == self@.contains(option),
    {
        match option {
            CompleteOption::BashDefault => self.bash_default,
            CompleteOption::Default => self.default,
            CompleteOption::DirNames => self.dir_names,
            CompleteOption::FileNames => self.file_names,
            CompleteOption::NoQuote => self.no_quote,
            CompleteOption::NoSort => self.no_sort,
            CompleteOption::NoSpace => self.no_space,
            CompleteOption::PlusDirs => self.plus_dirs,
        }
    }

    /// Enables or disables `option`.
    pub fn set(&mut self, option: CompleteOption, enabled: bool)
        ensures
            final(self)@ == if enabled { old(self)@.insert(option) } else { old(self)@.remove(option) },
    {
        match option {
            CompleteOption::BashDefault => self.bash_default = enabled,
            CompleteOption::Default => self.default = enabled,
            CompleteOption::DirNames => self.dir_names = enabled,
            CompleteOption::FileNames => self.file_names = enabled,
            CompleteOption::NoQuote => self.no_quote = enabled,
            CompleteOption::NoSort => self.no_sort = enabled,
            CompleteOption::NoSpace => self.no_space = enabled,
            CompleteOption::PlusDirs => self.plus_dirs = enabled,
        }
        proof {
            if enabled {
                assert(self@ =~= old(self)@.insert(option));
            } else {
                assert(self@ =~= old(self)@.remove(option));
            }
        }
    }
}

impl Default for GenerationOptions {
    fn default() -> (r: Self)
        ensures
            r@ == Set::<CompleteOption>::empty(),
    {
        let r = GenerationOptions {
            bash_default: false,
            default: false,
            dir_names: false,
            file_names: false,
            no_quote: false,
            no_sort: false,
            no_space: false,
            plus_dirs: false,
        };
        proof {
            assert(r@ =~= Set::<CompleteOption>::empty());
        }
        r
    }
}

/// A line editor's preferences for how completions edit the line: readline variables, such
/// as `mark-directories`.
#[derive(Clone, Debug)]
#[non_exhaustive]
pub struct EditPrefs {
    /// If true, mark directory completions with a trailing slash.
    pub mark_directories: bool,
    /// If true, mark symlinked directory completions with a trailing slash.
    pub mark_symlinked_directories: bool,
}

impl Default for EditPrefs {
    fn default() -> (r: Self)
        ensures
            r.mark_directories,
            !r.mark_symlinked_directories,
    {
        EditPrefs { mark_directories: true, mark_symlinked_directories: false }
    }
}

/// An edit of a line: replacing a range of it with text.
#[derive(Debug, Eq, PartialEq)]
pub struct Edit {
    /// The byte range of the line to replace. For a candidate, it's the word being completed
    /// (starting at the quote it's in, if any), up to the cursor -- or just past it, if the
    /// edit closes the word's quote in place of a closing quote there.
    pub replace: Range<usize>,
    /// The text to put in its place, quoted as needed; the cursor goes after it.
    pub text: String,
}

impl Clone for Edit {
    fn clone(&self) -> (r: Self)
        ensures
            r.replace == self.replace,
            r.text@ == self.text@,
    {
        Edit { replace: self.replace.start..self.replace.end, text: self.text.clone() }
    }
}

/// A completion candidate.
#[derive(Debug, Eq, PartialEq)]
#[non_exhaustive]
pub struct Candidate {
    /// The candidate, unquoted, as generated.
    pub value: String,
    /// What kind of candidate it is.
    pub kind: CandidateKind,
    /// The edit of the line that completes the word with the candidate.
    pub edit: Edit,
}

/// The completions of the word at the cursor in a line, as edits of the line.
#[derive(Debug)]
#[non_exhaustive]
pub struct Completions {
    /// The candidates, without duplicates, in the order generated.
    pub candidates: Vec<Candidate>,
    /// If there are several candidates, the edit that completes the word to their longest
    /// common prefix, only partway -- if it would change the line.
    pub common_prefix: Option<Edit>,
}

impl Default for Completions {
    fn default() -> (r: Self)
        ensures
            r.candidates@.len() == 0,
            r.common_prefix is None,
    {
        Completions { candidates: Vec::new(), common_prefix: None }
    }
}

/// Setting an option makes `get` answer what was set for it, and changes no other option.
pub proof fn law_option_set_then_get(before: GenerationOptions, after: GenerationOptions, option: CompleteOption, enabled: bool, other: CompleteOption)
    requires
        after@ == if enabled { before@.insert(option) } else { before@.remove(option) },
    ensures
        after@.contains(option) == enabled,
        other != option ==> after@.contains(other) == before@.contains(other),
{
}

} // verus!
