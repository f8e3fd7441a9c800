//! Error facilities.

use vstd::prelude::*;

use crate::env::{EnvironmentScope, NameRefFault};



verus! {

/// The standard library's I/O error, carried in errors as it is.
#[verifier::external_type_specification]
#[verifier::external_body]
pub struct ExIoError(std::io::Error);

/// The kinds of error the library reports.
#[derive(Debug)]
pub enum ErrorKind {
    /// An attempt was made to assign a list to an array member.
    AssigningListToArrayMember,
    /// An array element was named with a subscript no element can have.
    BadArraySubscript(String),
    /// A compound value keyed an indexed array element with `*` or `@`.
    AssigningToNonNumericIndex(String),
    /// An attempt was made to convert an associative array to an indexed array.
    ConvertingAssociativeArrayToIndexedArray,
    /// An attempt was made to convert an indexed array to an associative array.
    ConvertingIndexedArrayToAssociativeArray,
    /// Command was not found.
    CommandNotFound(String),
    /// The working directory does not exist.
    WorkingDirMissing(std::path::PathBuf),
    /// A command could not be started: its name, and why.
    FailedToExecuteCommand(String, std::io::Error),
    /// History item was not found.
    HistoryItemNotFound,
    /// The requested functionality has not yet been implemented.
    Unimplemented(&'static str),
    /// The requested functionality has not yet been implemented; it is tracked in an issue.
    UnimplementedAndTracked(&'static str, u32),
    /// An expected environment scope could not be found.
    MissingScope,
    /// The environment scope required for a new variable is not available.
    MissingScopeForNewVariable,
    /// An unexpected environment scope type was encountered.
    UnexpectedScopeType {
        /// The expected scope type.
        expected: EnvironmentScope,
        /// The actual scope type.
        actual: EnvironmentScope,
    },
    /// The given variable is not an array.
    NotArray,
    /// The given string could not be parsed as an integer.
    IntParseError {
        /// The string that failed to parse.
        s: String,
        /// The integer type being parsed.
        int_type_name: &'static str,
        /// The radix used for parsing.
        radix: u32,
    },
    /// An attempt was made to modify a readonly variable.
    ReadonlyVariable,
    /// An attempt was made to redefine or unset a readonly function.
    ReadonlyFunction(String),
    /// A variable name that is not a legal identifier was used.
    InvalidVariableName(String),
    /// A nameref chain could not be resolved (cycle or depth overflow).
    NameRef(NameRefFault),
    /// A nameref chain was circular or too deep (reported against the given name).
    CircularNameReference(String),
    /// A subscripted nameref target was used where only a bare name is valid.
    SubscriptedNameRefTarget {
        /// The base name of the target.
        name: String,
        /// The subscript of the target.
        subscript: String,
    },
    /// Completion was asked for at a position that is not a char boundary of the line.
    InvalidCompletionPosition(usize),
    /// A parameter expansion named no valid parameter.
    BadSubstitution(String),
    /// A checked parameter expansion (`${x:?message}`) found the parameter unset or null:
    /// the expanded message.
    CheckedExpansionError(String),
    /// An assignment named a parameter that cannot be assigned: a positional or special
    /// parameter, or all of an array's elements.
    CannotAssignToSpecialParameter,
    /// A word could not be parsed.
    WordParseError(brush_parser::WordParseError),
    /// A regular expression could not be compiled: the compiler's message, and the
    /// expression.
    InvalidRegexError(String, String),
    /// An internal error occurred.
    InternalError(String),
}

/// Unified error type: a kind plus the context attached to it.
#[derive(Debug)]
pub struct Error {
    kind: ErrorKind,
    variable: Option<String>,
    fatal: bool,
    from_assignment: bool,
}

impl Error {
    /// The kind of this error.
    pub closed spec fn spec_kind(&self) -> ErrorKind {
        self.kind
    }

    /// The variable this error is attributed to, if any.
    pub closed spec fn spec_variable(&self) -> Option<Seq<char>> {
        match self.variable {
            Some(v) => Some(v@),
            None => None,
        }
    }

    /// Whether this error is fatal.
    pub closed spec fn spec_fatal(&self) -> bool {
        self.fatal
    }

    /// Whether this error arose from an assignment.
    pub closed spec fn spec_from_assignment(&self) -> bool {
        self.from_assignment
    }

    /// Builds an error of the given kind, with no context attached.
    pub fn new(kind: ErrorKind) -> (e: Self)
        ensures
            e.spec_kind() == kind,
            e.spec_variable() is None,
            !e.spec_fatal(),
            !e.spec_from_assignment(),
    {
        Error { kind, variable: None, fatal: false, from_assignment: false }
    }

    /// Marks this error as fatal.
    pub fn into_fatal(self) -> (e: Self)
        ensures
            e.spec_kind() == self.spec_kind(),
            e.spec_variable() == self.spec_variable(),
            e.spec_fatal(),
            e.spec_from_assignment() == self.spec_from_assignment(),
    {
        let mut e = self;
        e.fatal = true;
        e
    }

    /// Returns whether or not this error is fatal.
    pub fn is_fatal(&self) -> (r: bool)
        ensures
            r == self.spec_fatal(),
    {
        self.fatal
    }

    /// Names the variable this error is about. A list assigned to an element is reported
    /// against the element (`name[subscript]`); a kind whose message already names its
    /// target (a bad subscript, a non-numeric index, a readonly function) is left alone, as
    /// is an error already attributed to a variable.
    pub fn for_variable(self, name: &str, subscript: Option<&str>) -> (e: Self)
        ensures
            e.spec_kind() == self.spec_kind(),
            e.spec_fatal() == self.spec_fatal(),
            e.spec_from_assignment() == self.spec_from_assignment(),
            e.spec_variable() == (if self.spec_variable() is Some {
                self.spec_variable()
            } else {
                match (self.spec_kind(), subscript) {
                    (ErrorKind::BadArraySubscript(_), _) => None,
                    (ErrorKind::AssigningToNonNumericIndex(_), _) => None,
                    (ErrorKind::ReadonlyFunction(_), _) => None,
                    (ErrorKind::AssigningListToArrayMember, Some(sub)) => Some(
                        name@ + seq!['['] + sub@ + seq![']'],
                    ),
                    _ => Some(name@),
                }
            }),
    {
        if self.variable.is_some() {
            return self;
        }
        let mut e = self;
        let v: Option<String> = match (&e.kind, subscript) {
            (ErrorKind::BadArraySubscript(_), _) => None,
            (ErrorKind::AssigningToNonNumericIndex(_), _) => None,
            (ErrorKind::ReadonlyFunction(_), _) => None,
            (ErrorKind::AssigningListToArrayMember, Some(sub)) => {
                let mut s = name.to_owned();
                crate::text::push_char(&mut s, '[');
                crate::text::push_str(&mut s, sub);
                crate::text::push_char(&mut s, ']');
                Some(s)
            },
            _ => Some(name.to_owned()),
        };
        e.variable = v;
        e
    }

    /// Marks this error as a variable assignment error.
    pub fn into_assignment_error(self) -> (e: Self)
        ensures
            e.spec_kind() == self.spec_kind(),
            e.spec_variable() == self.spec_variable(),
            e.spec_fatal() == self.spec_fatal(),
            e.spec_from_assignment(),
    {
        let mut e = self;
        e.from_assignment = true;
        e
    }

    /// Returns whether or not this is a variable assignment error.
    pub fn is_assignment_error(&self) -> (r: bool)
        ensures
            r == self.spec_from_assignment(),
    {
        self.from_assignment
    }

    /// Returns a reference to the error kind.
    pub fn kind(&self) -> (k: &ErrorKind)
        ensures
            *k == self.spec_kind(),
    {
        &self.kind
    }
}

/// Returns an error for unimplemented functionality.
pub fn unimp<T>(msg: &'static str) -> (r: Result<T, Error>)
    ensures
        r is Err,
        r->Err_0.spec_kind() == ErrorKind::Unimplemented(msg),
{
    Err(Error::new(ErrorKind::Unimplemented(msg)))
}

/// Returns an error for unimplemented functionality tracked in an issue.
pub fn unimp_with_issue<T>(msg: &'static str, project_issue_id: u32) -> (r: Result<T, Error>)
    ensures
        r is Err,
        r->Err_0.spec_kind() == ErrorKind::UnimplementedAndTracked(msg, project_issue_id),
{
    Err(Error::new(ErrorKind::UnimplementedAndTracked(msg, project_issue_id)))
}

} // verus!
