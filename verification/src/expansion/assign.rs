//! Assigning to a parameter named by its text, such as `var` or `arr[1]`: the text is
//! parsed as a parameter, and only a variable or one element of an array can be assigned.

use vstd::prelude::*;

use brush_parser::word::Parameter::{
    Named as ParsedNamed, NamedWithAllIndices as ParsedAllIndices, NamedWithIndex as ParsedIndexed,
    Positional as ParsedPositional, Special as ParsedSpecialParameter,
};
use brush_parser::word::SpecialParameter as ParsedSpecial;

use crate::completion::wordlist::WordParseOptions;
use crate::env::mutation::{error_is, model_of, nameref_view, write_at_outcome, write_outcome, NameRefView};
use crate::env::{EnvironmentLookup, EnvironmentScope, NameRef, ShellEnvironment, VarUpdate};
use crate::error::{Error, ErrorKind};
use crate::variables::{LiteralView, ShellValueLiteral};

verus! {

/// A special parameter.
#[derive(Clone, Copy, Debug, PartialEq, Eq, Structural)]
pub enum SpecialParameter {
    /// All positional parameters (`$@`, or `$*` when concatenated).
    AllPositionalParameters {
        /// Whether to concatenate the values.
        concatenate: bool,
    },
    /// The count of positional parameters (`$#`).
    PositionalParameterCount,
    /// The last exit status (`$?`).
    LastExitStatus,
    /// The current shell option flags (`$-`).
    CurrentOptionFlags,
    /// The shell's process ID (`$$`).
    ProcessId,
    /// The last background process ID (`$!`).
    LastBackgroundProcessId,
    /// The shell's name (`$0`).
    ShellName,
}

/// A parameter, as the text of a parameter expansion names it.
#[derive(Clone, Debug)]
pub enum Parameter {
    /// A positional parameter, by its 1-based number.
    Positional(u32),
    /// A special parameter.
    Special(SpecialParameter),
    /// A named variable.
    Named(String),
    /// An element of a named array variable.
    NamedWithIndex {
        /// The variable's name.
        name: String,
        /// The element's index, as written.
        index: String,
    },
    /// All the elements of a named array variable.
    NamedWithAllIndices {
        /// The variable's name.
        name: String,
        /// Whether to concatenate the values.
        concatenate: bool,
    },
}

/// The model of a [`Parameter`].
pub enum ParameterView {
    Positional(u32),
    Special(SpecialParameter),
    Named(Seq<char>),
    NamedWithIndex { name: Seq<char>, index: Seq<char> },
    NamedWithAllIndices { name: Seq<char>, concatenate: bool },
}

impl Parameter {
    /// The model of this parameter.
    pub open spec fn view(&self) -> ParameterView {
        match self {
            Parameter::Positional(n) => ParameterView::Positional(*n),
            Parameter::Special(s) => ParameterView::Special(*s),
            Parameter::Named(n) => ParameterView::Named(n@),
            Parameter::NamedWithIndex { name, index } => ParameterView::NamedWithIndex { name: name@, index: index@ },
            Parameter::NamedWithAllIndices { name, concatenate } => ParameterView::NamedWithAllIndices {
                name: name@,
                concatenate: *concatenate,
            },
        }
    }
}

/// The name of what `brush_parser::word::parse_parameter` gives for `word` under
/// `options`: `None` for an error, or else the parameter the whole word names.
pub uninterp spec fn parsed_parameter(word: Seq<char>, options: WordParseOptions) -> Option<ParameterView>;

/// Parses `word` as a parameter (`brush_parser::word::parse_parameter`). The contract
/// names the result (see [`parsed_parameter`]); the parameter grammar itself is the
/// parser's.
#[verifier::external_body]
fn parse_parameter(word: &str, options: &WordParseOptions) -> (r: Result<Parameter, brush_parser::WordParseError>)
    ensures
        match r {
            Ok(p) => parsed_parameter(word@, *options) == Some(p@),
            Err(_) => parsed_parameter(word@, *options) is None,
        },
{
    let o = brush_parser::ParserOptions { enable_extended_globbing: options.enable_extended_globbing, posix_mode: options.posix_mode, sh_mode: options.sh_mode, tilde_expansion_at_word_start: options.tilde_expansion_at_word_start, tilde_expansion_after_colon: options.tilde_expansion_after_colon, ..Default::default() };
    Ok(match brush_parser::word::parse_parameter(word, &o)? {
        ParsedPositional(n) => Parameter::Positional(n),
        ParsedNamed(n) => Parameter::Named(n),
        ParsedIndexed { name, index } => Parameter::NamedWithIndex { name, index },
        ParsedAllIndices { name, concatenate } => Parameter::NamedWithAllIndices { name, concatenate },
        ParsedSpecialParameter(s) => Parameter::Special(match s {
            ParsedSpecial::AllPositionalParameters { concatenate } => SpecialParameter::AllPositionalParameters { concatenate },
            ParsedSpecial::PositionalParameterCount => SpecialParameter::PositionalParameterCount, ParsedSpecial::LastExitStatus => SpecialParameter::LastExitStatus,
            ParsedSpecial::CurrentOptionFlags => SpecialParameter::CurrentOptionFlags, ParsedSpecial::ProcessId => SpecialParameter::ProcessId,
            ParsedSpecial::LastBackgroundProcessId => SpecialParameter::LastBackgroundProcessId, ParsedSpecial::ShellName => SpecialParameter::ShellName,
        }),
    })
}

/// What an assignment writes: a whole variable, or one element of an array variable with
/// its index as written (to be expanded before the write).
#[derive(Clone, Debug)]
pub enum AssignmentTarget {
    /// The variable of this name.
    Scalar(String),
    /// The element `index` of the array variable `name`.
    Element {
        /// The variable's name.
        name: String,
        /// The element's index.
        index: String,
    },
}

/// The model of an [`AssignmentTarget`].
pub enum TargetView {
    Scalar(Seq<char>),
    Element { name: Seq<char>, index: Seq<char> },
}

impl AssignmentTarget {
    /// The model of this target.
    pub open spec fn view(&self) -> TargetView {
        match self {
            AssignmentTarget::Scalar(n) => TargetView::Scalar(n@),
            AssignmentTarget::Element { name, index } => TargetView::Element { name: name@, index: index@ },
        }
    }
}

/// What an assignment to the parameter `p` writes: a named variable, or an element of one;
/// no other parameter can be assigned (`None`).
pub open spec fn assignment_target_of(p: ParameterView) -> Option<TargetView> {
    match p {
        ParameterView::Named(n) => Some(TargetView::Scalar(n)),
        ParameterView::NamedWithIndex { name, index } => Some(TargetView::Element { name, index }),
        _ => None,
    }
}

/// Returns what an assignment to `p` writes (see [`assignment_target_of`]); a positional
/// or special parameter, or all of an array's elements, cannot be assigned.
pub fn parameter_assignment_target(p: &Parameter) -> (r: Result<AssignmentTarget, Error>)
    ensures
        match assignment_target_of(p@) {
            Some(t) => r matches Ok(rt) && rt@ == t,
            None => r matches Err(e) && e.spec_kind() is CannotAssignToSpecialParameter,
        },
{
    match p {
        Parameter::Named(n) => Ok(AssignmentTarget::Scalar(n.clone())),
        Parameter::NamedWithIndex { name, index } => Ok(AssignmentTarget::Element { name: name.clone(), index: index.clone() }),
        _ => Err(Error::new(ErrorKind::CannotAssignToSpecialParameter)),
    }
}

/// Parses the parameter named by `name` and returns what an assignment to it writes: a
/// word that is no parameter is a parse error; otherwise see
/// [`parameter_assignment_target`].
pub fn plan_named_parameter_assignment(name: &str, options: &WordParseOptions) -> (r: Result<AssignmentTarget, Error>)
    ensures
        match parsed_parameter(name@, *options) {
            None => r matches Err(e) && e.spec_kind() is WordParseError,
            Some(p) => match assignment_target_of(p) {
                Some(t) => r matches Ok(rt) && rt@ == t,
                None => r matches Err(e) && e.spec_kind() is CannotAssignToSpecialParameter,
            },
        },
{
    match parse_parameter(name, options) {
        Ok(p) => parameter_assignment_target(&p),
        Err(e) => Err(Error::new(ErrorKind::WordParseError(e))),
    }
}

/// The outcome of assigning `value` to the target `t` in the scopes `scopes`, an element's
/// index being `t`'s own: a variable is written as `set_var` writes it, an element as
/// `update_or_add_array_element` writes it, both looked up anywhere and created globally.
pub open spec fn assignment_outcome(
    scopes: Seq<crate::env::ScopeView>,
    auto: bool,
    t: TargetView,
    value: Seq<char>,
) -> Result<Seq<crate::env::mutation::ScopeModel>, crate::env::mutation::WriteError> {
    let none = VarUpdate { export: false, readonly: false, nameref: false };
    match t {
        TargetView::Scalar(n) => write_outcome(
            scopes,
            auto,
            NameRefView::Resolve(n),
            LiteralView::Scalar(value),
            none,
            EnvironmentLookup::Anywhere,
            EnvironmentScope::Global,
        ),
        TargetView::Element { name, index } => write_at_outcome(
            scopes,
            auto,
            NameRefView::Resolve(name),
            index,
            value,
            none,
            EnvironmentLookup::Anywhere,
            EnvironmentScope::Global,
        ),
    }
}

/// Assigns `value` to `target` in `env`, an element's index being taken as it is in
/// `target` (expand it first; see [`crate::expansion::parameter::is_set_assoc_array`]):
/// see [`assignment_outcome`].
pub fn assign_to_target(env: &mut ShellEnvironment, target: AssignmentTarget, value: String) -> (r: Result<(), Error>)
    requires
        old(env).wf(),
        old(env).spec_entry_count() < usize::MAX,
    ensures
        final(env).wf(),
        final(env).auto_export() == old(env).auto_export(),
        match assignment_outcome(old(env)@, old(env).auto_export(), target@, value@) {
            Ok(after) => r is Ok && model_of(final(env)@) == after,
            Err(e) => r matches Err(re) && error_is(re, e) && model_of(final(env)@) == model_of(old(env)@),
        },
{
    match target {
        AssignmentTarget::Scalar(name) => {
            let n = NameRef::resolve(name.as_str());
            env.update_or_add(n, ShellValueLiteral::Scalar(value), VarUpdate::none(), EnvironmentLookup::Anywhere, EnvironmentScope::Global)
        },
        AssignmentTarget::Element { name, index } => {
            let n = NameRef::resolve(name.as_str());
            env.update_or_add_array_element(n, index, value, VarUpdate::none(), EnvironmentLookup::Anywhere, EnvironmentScope::Global)
        },
    }
}

} // verus!
