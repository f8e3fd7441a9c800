//! What a command's policy hooks are told about it: where it stands in a pipeline, its
//! redirections as values, where it dispatches, and how a command substitution is to be
//! handled.

use std::borrow::Cow;
use std::path::PathBuf;
use vstd::prelude::*;

use crate::error;
use crate::error::{Error, ErrorKind};
use crate::int_utils::{radix_value, ParseIntRadix};
use crate::text;

verus! {

/// A file system path (`std::path::PathBuf`), carried through as is.
#[verifier::external_type_specification]
#[verifier::external_body]
pub struct ExPathBuf(PathBuf);

/// Context describing a command's position within a pipeline.
///
/// For a pipeline like `cmd1 | cmd2 | cmd3`, each command receives a `PipelineContext`
/// with its zero-indexed position and the total length.
#[derive(Debug, Clone, Copy, PartialEq, Eq, Structural)]
pub struct PipelineContext {
    /// Zero-indexed position of the command in the pipeline.
    pub position: usize,
    /// Total number of commands in the pipeline.
    pub length: usize,
}

/// How a redirection operates.
#[derive(Debug, Clone, Copy, PartialEq, Eq, Structural)]
pub enum RedirectionMode {
    /// Open for reading (`<`).
    Read,
    /// Open for writing, truncate (`>`).
    Write,
    /// Open for writing, append (`>>`).
    Append,
    /// Open for both reading and writing (`<>`).
    ReadWrite,
    /// Force overwrite even with `noclobber` (`>|`).
    Clobber,
}

/// What a file descriptor redirects to.
#[derive(Debug, PartialEq, Eq)]
pub enum RedirectionTarget<'a> {
    /// Redirect to/from a file path (expanded value).
    FilePath(Cow<'a, str>),
    /// Redirect to/from another file descriptor.
    FileDescriptor(i32),
    /// Here-document content.
    HereDoc(Cow<'a, str>),
    /// Here-string content.
    HereString(Cow<'a, str>),
}

/// A redirection target as values.
pub enum TargetView {
    /// A file path.
    FilePath(Seq<char>),
    /// Another file descriptor.
    FileDescriptor(i32),
    /// Here-document content.
    HereDoc(Seq<char>),
    /// Here-string content.
    HereString(Seq<char>),
}

impl<'a> RedirectionTarget<'a> {
    /// The target as values.
    pub open spec fn view(&self) -> TargetView {
        match self {
            RedirectionTarget::FilePath(p) => TargetView::FilePath(p@),
            RedirectionTarget::FileDescriptor(fd) => TargetView::FileDescriptor(*fd),
            RedirectionTarget::HereDoc(c) => TargetView::HereDoc(c@),
            RedirectionTarget::HereString(c) => TargetView::HereString(c@),
        }
    }
}

/// Structured representation of a single I/O redirection.
#[derive(Debug, PartialEq, Eq)]
pub struct RedirectionInfo<'a> {
    /// Destination file descriptor number.
    pub fd: i32,
    /// What the file descriptor redirects to.
    pub target: RedirectionTarget<'a>,
    /// How the redirection operates.
    pub mode: RedirectionMode,
}

/// Dispatch classification for a command.
#[derive(Debug, Clone, PartialEq, Eq)]
pub enum DispatchTarget {
    /// The command dispatches to a shell builtin.
    Builtin,
    /// The command dispatches to a shell function.
    Function,
    /// The command dispatches to an external executable.
    External {
        /// The resolved path to the external executable, if known without additional
        /// filesystem probing.
        resolved_path: Option<PathBuf>,
    },
}

/// Context passed to the pre-command-substitution policy hook.
#[derive(Debug)]
pub struct CommandSubstitutionContext<'a> {
    /// Raw source text of the substitution body, when available.
    pub raw_body: Option<Cow<'a, str>>,
    /// The syntax used for the command substitution.
    pub syntax: SubstitutionSyntax,
}

/// The syntax form used for a command substitution.
#[derive(Debug, Clone, Copy, PartialEq, Eq, Structural)]
pub enum SubstitutionSyntax {
    /// Modern `$(...)` syntax.
    DollarParen,
    /// Legacy backtick `` `...` `` syntax.
    Backticks,
}

/// Decision returned by the pre-command-substitution policy hook.
#[derive(Debug)]
pub enum CommandSubstitutionDecision {
    /// Execute the substitution body normally.
    Allow,
    /// Do not execute the substitution body; use the provided output instead.
    ReplaceOutput {
        /// The string to use as the substitution result.
        output: String,
    },
    /// Abort the expansion with an error.
    Error(error::Error),
}

/// The operation of a file redirection.
#[derive(Debug, Clone, Copy, PartialEq, Eq, Structural)]
pub enum IoFileRedirectKind {
    /// `<`
    Read,
    /// `>`
    Write,
    /// `>>`
    Append,
    /// `<>`
    ReadAndWrite,
    /// `>|`
    Clobber,
    /// `<&`
    DuplicateInput,
    /// `>&`
    DuplicateOutput,
}

/// An I/O redirection of a command, as its conversion needs it.
#[derive(Debug, Clone, PartialEq, Eq)]
pub enum IoRedirect {
    /// A redirection to or from a file (or another descriptor), with its explicit
    /// descriptor, if given.
    File(Option<i32>, IoFileRedirectKind),
    /// A here-document, with its explicit descriptor, if given, and its text as written.
    HereDocument(Option<i32>, String),
    /// A here-string, with its explicit descriptor, if given.
    HereString(Option<i32>),
    /// `&>` or `&>>` (`true` to append): both stdout and stderr to one file.
    OutputAndError(bool),
}

/// Returns the default file descriptor for a given redirect kind: 0 for input, 1 for
/// output.
pub fn get_default_fd_for_redirect_kind(kind: IoFileRedirectKind) -> (r: i32)
    ensures
        r == default_fd(kind),
{
    match kind {
        IoFileRedirectKind::Read | IoFileRedirectKind::ReadAndWrite => 0,
        IoFileRedirectKind::Write
        | IoFileRedirectKind::Append
        | IoFileRedirectKind::Clobber
        | IoFileRedirectKind::DuplicateOutput => 1,
        IoFileRedirectKind::DuplicateInput => 0,
    }
}

/// The default file descriptor of a redirect kind.
pub open spec fn default_fd(kind: IoFileRedirectKind) -> i32 {
    match kind {
        IoFileRedirectKind::Read | IoFileRedirectKind::ReadAndWrite | IoFileRedirectKind::DuplicateInput => 0,
        _ => 1,
    }
}

/// `s` without its trailing `-`s.
pub open spec fn trim_trailing_dashes(s: Seq<char>) -> Seq<char>
    decreases s.len(),
{
    if s.len() > 0 && s.last() == '-' {
        trim_trailing_dashes(s.drop_last())
    } else {
        s
    }
}

/// The value of `s` as an `i32`, as Rust reads one, if it is one.
pub open spec fn i32_value(s: Seq<char>) -> Option<int> {
    match radix_value(s, 10, true) {
        Some(v) => if i32::MIN <= v <= i32::MAX { Some(v) } else { None },
        None => None,
    }
}

/// A redirection as values: its descriptor, its target, and its mode.
pub open spec fn info_view(r: RedirectionInfo) -> (i32, TargetView, RedirectionMode) {
    (r.fd, r.target@, r.mode)
}

/// The mode of a plain file redirection, if `kind` is one (not a duplication).
pub open spec fn file_mode(kind: IoFileRedirectKind) -> Option<RedirectionMode> {
    match kind {
        IoFileRedirectKind::Read => Some(RedirectionMode::Read),
        IoFileRedirectKind::Write => Some(RedirectionMode::Write),
        IoFileRedirectKind::Append => Some(RedirectionMode::Append),
        IoFileRedirectKind::ReadAndWrite => Some(RedirectionMode::ReadWrite),
        IoFileRedirectKind::Clobber => Some(RedirectionMode::Clobber),
        _ => None,
    }
}

/// What a redirection converts to, with its target expanded to `expanded` if available:
/// a file redirection to its expanded path (or, if it duplicates a descriptor, to the
/// descriptor its target names, once trailing `-`s are trimmed); a here-document to its
/// expanded text, or its text as written; a here-string to its expanded text; `&>` to its
/// expanded path, as a redirection of stdout. `None` if what it needs is missing.
pub open spec fn converted(redirect: IoRedirect, expanded: Option<Seq<char>>) -> Option<(i32, TargetView, RedirectionMode)> {
    match redirect {
        IoRedirect::File(fd, kind) => {
            let fd_num = match fd {
                Some(n) => n,
                None => default_fd(kind),
            };
            match file_mode(kind) {
                Some(mode) => match expanded {
                    Some(path) => Some((fd_num, TargetView::FilePath(path), mode)),
                    None => None,
                },
                None => match expanded {
                    Some(t) => match i32_value(trim_trailing_dashes(t)) {
                        Some(target_fd) => Some((
                            fd_num,
                            TargetView::FileDescriptor(target_fd as i32),
                            if kind == IoFileRedirectKind::DuplicateInput { RedirectionMode::Read } else { RedirectionMode::Write },
                        )),
                        None => None,
                    },
                    None => None,
                },
            }
        },
        IoRedirect::HereDocument(fd, doc) => Some((
            match fd {
                Some(n) => n,
                None => 0,
            },
            TargetView::HereDoc(match expanded {
                Some(e) => e,
                None => doc@,
            }),
            RedirectionMode::Read,
        )),
        IoRedirect::HereString(fd) => Some((
            match fd {
                Some(n) => n,
                None => 0,
            },
            TargetView::HereString(match expanded {
                Some(e) => e,
                None => Seq::empty(),
            }),
            RedirectionMode::Read,
        )),
        IoRedirect::OutputAndError(append) => match expanded {
            Some(path) => Some((1, TargetView::FilePath(path), if append { RedirectionMode::Append } else { RedirectionMode::Write })),
            None => None,
        },
    }
}

/// An optional text as values.
pub open spec fn opt_str_view(o: Option<&str>) -> Option<Seq<char>> {
    match o {
        Some(s) => Some(s@),
        None => None,
    }
}

/// An optional redirection as values.
pub open spec fn opt_info_view(o: Option<RedirectionInfo>) -> Option<(i32, TargetView, RedirectionMode)> {
    match o {
        Some(r) => Some(info_view(r)),
        None => None,
    }
}

/// Returns `s` without its trailing `-`s.
fn trim_end_dashes(s: &str) -> (r: String)
    ensures
        r@ == trim_trailing_dashes(s@),
{
    let v = text::chars_of(s);
    let mut n = v.len();
    proof {
        assert(v@.take(n as int) == v@);
    }
    while n > 0 && text::char_at(&v, n - 1) == '-'
        invariant
            v@ == s@,
            n <= v@.len(),
            trim_trailing_dashes(s@) == trim_trailing_dashes(v@.take(n as int)),
        decreases n,
    {
        proof {
            assert(v@.take(n as int).drop_last() == v@.take(n - 1));
        }
        n = n - 1;
    }
    proof {
        assert(v@.take(n as int) == v@.subrange(0, n as int));
    }
    text::string_of(&v, 0, n)
}

/// Converts an I/O redirection to a [`RedirectionInfo`] with an expanded target (see
/// [`converted`]), or `None` if what it needs isn't available.
pub fn convert_redirect_to_info(redirect: &IoRedirect, expanded_target: Option<&str>) -> (r: Option<RedirectionInfo<'static>>)
    ensures
        opt_info_view(r) == converted(*redirect, opt_str_view(expanded_target)),
{
    match redirect {
        IoRedirect::File(fd, kind) => {
            let fd_num = match fd {
                Some(n) => *n,
                None => get_default_fd_for_redirect_kind(*kind),
            };
            let mode = match kind {
                IoFileRedirectKind::Read => RedirectionMode::Read,
                IoFileRedirectKind::Write => RedirectionMode::Write,
                IoFileRedirectKind::Append => RedirectionMode::Append,
                IoFileRedirectKind::ReadAndWrite => RedirectionMode::ReadWrite,
                IoFileRedirectKind::Clobber => RedirectionMode::Clobber,
                IoFileRedirectKind::DuplicateInput | IoFileRedirectKind::DuplicateOutput => {
                    // For fd duplication, the target names the descriptor.
                    if let Some(target_str) = expanded_target {
                        let trimmed = trim_end_dashes(target_str);
                        if let Some(target_fd) = <i32 as ParseIntRadix>::from_str_radix(trimmed.as_str(), 10) {
                            let mode = if *kind == IoFileRedirectKind::DuplicateInput {
                                RedirectionMode::Read
                            } else {
                                RedirectionMode::Write
                            };
                            return Some(RedirectionInfo {
                                fd: fd_num,
                                target: RedirectionTarget::FileDescriptor(target_fd),
                                mode,
                            });
                        }
                    }
                    return None;
                },
            };
            match expanded_target {
                Some(path) => Some(RedirectionInfo {
                    fd: fd_num,
                    target: RedirectionTarget::FilePath(Cow::Owned(path.to_owned())),
                    mode,
                }),
                None => None,
            }
        },
        IoRedirect::HereDocument(fd, doc) => {
            let fd_num = match fd {
                Some(n) => *n,
                None => 0,
            };
            let content = match expanded_target {
                Some(expanded) => expanded.to_owned(),
                None => doc.clone(),
            };
            Some(RedirectionInfo { fd: fd_num, target: RedirectionTarget::HereDoc(Cow::Owned(content)), mode: RedirectionMode::Read })
        },
        IoRedirect::HereString(fd) => {
            let fd_num = match fd {
                Some(n) => *n,
                None => 0,
            };
            let content = match expanded_target {
                Some(expanded) => expanded.to_owned(),
                None => String::new(),
            };
            Some(RedirectionInfo {
                fd: fd_num,
                target: RedirectionTarget::HereString(Cow::Owned(content)),
                mode: RedirectionMode::Read,
            })
        },
        IoRedirect::OutputAndError(append) => {
            let mode = if *append { RedirectionMode::Append } else { RedirectionMode::Write };
            match expanded_target {
                Some(path) => Some(RedirectionInfo {
                    fd: 1,
                    target: RedirectionTarget::FilePath(Cow::Owned(path.to_owned())),
                    mode,
                }),
                None => None,
            }
        },
    }
}

/// The operation that runs an external command, as filters see it.
pub struct ExecuteExternalCommand;

/// An item before a simple command's name, as far as the shell's handling of a bare
/// input redirection tells them apart.
#[derive(Debug, Clone)]
pub enum PrefixItemShape {
    /// An I/O redirection, and whether its target is a file name.
    IoRedirect(IoRedirect, bool),
    /// An assignment or a word.
    Other,
}

/// A simple command, as far as the shell's handling of a bare input redirection reads it.
#[derive(Debug, Clone)]
pub struct SimpleCommandShape {
    /// Whether it has a command word or name.
    pub has_word_or_name: bool,
    /// Whether it has words after the name.
    pub has_suffix: bool,
    /// The items before the name, if there are any.
    pub prefix: Option<Vec<PrefixItemShape>>,
}

/// A command of a pipeline.
#[derive(Debug, Clone)]
pub enum CommandShape {
    /// A simple command.
    Simple(SimpleCommandShape),
    /// Any other command (compound, function definition, extended test).
    Other,
}

/// A pipeline.
#[derive(Debug, Clone)]
pub struct PipelineShape {
    /// Whether it is negated with `!`.
    pub bang: bool,
    /// Its commands.
    pub seq: Vec<CommandShape>,
}

/// An and-or list: its first pipeline, and how many more follow after `&&` or `||`.
#[derive(Debug, Clone)]
pub struct AndOrShape {
    /// The first pipeline.
    pub first: PipelineShape,
    /// How many pipelines follow it.
    pub additional: usize,
}

/// A program: its complete commands, each a list of and-or lists.
#[derive(Debug, Clone)]
pub struct ProgramShape {
    /// The complete commands.
    pub complete_commands: Vec<Vec<AndOrShape>>,
}

/// The redirection a simple command consists of, if it is nothing but one input
/// redirection from a file name to standard input (like `< file`).
pub open spec fn bare_input_simple(sc: SimpleCommandShape) -> Option<IoRedirect> {
    if sc.has_word_or_name || sc.has_suffix {
        None
    } else {
        match sc.prefix {
            Some(items) => if items@.len() == 1 {
                match items@[0] {
                    PrefixItemShape::IoRedirect(r, true) => match r {
                        IoRedirect::File(fd, IoFileRedirectKind::Read) => if fd is None || fd == Some(0i32) {
                            Some(r)
                        } else {
                            None
                        },
                        _ => None,
                    },
                    _ => None,
                }
            } else {
                None
            },
            None => None,
        }
    }
}

/// The redirection a program consists of, if it is one complete command made of one
/// and-or list of one pipeline, not negated, of one simple command that is nothing but
/// one input redirection from a file name to standard input (like `$(< file)`).
pub open spec fn bare_input_redirect(p: ProgramShape) -> Option<IoRedirect> {
    if p.complete_commands@.len() == 1 && p.complete_commands@[0]@.len() == 1 {
        let ao = p.complete_commands@[0]@[0];
        if ao.additional == 0 && !ao.first.bang && ao.first.seq@.len() == 1 {
            match ao.first.seq@[0] {
                CommandShape::Simple(sc) => bare_input_simple(sc),
                CommandShape::Other => None,
            }
        } else {
            None
        }
    } else {
        None
    }
}

/// Detects a program that consists solely of a single input redirection (e.g. `< file`,
/// as in `$(< file)`), returning that redirection when present (see
/// [`bare_input_redirect`]).
pub fn try_unwrap_bare_input_redir_program(program: &ProgramShape) -> (r: Option<&IoRedirect>)
    ensures
        match r {
            Some(redir) => bare_input_redirect(*program) == Some(*redir),
            None => bare_input_redirect(*program) is None,
        },
{
    if program.complete_commands.len() != 1 {
        return None;
    }
    let items = &program.complete_commands[0];
    if items.len() != 1 {
        return None;
    }
    let and_or = &items[0];
    if and_or.additional != 0 {
        return None;
    }
    let pipeline = &and_or.first;
    if pipeline.bang {
        return None;
    }
    if pipeline.seq.len() != 1 {
        return None;
    }
    let simple_cmd = match &pipeline.seq[0] {
        CommandShape::Simple(sc) => sc,
        CommandShape::Other => return None,
    };
    if simple_cmd.has_word_or_name || simple_cmd.has_suffix {
        return None;
    }
    let prefix = match &simple_cmd.prefix {
        Some(prefix) => prefix,
        None => return None,
    };
    if prefix.len() != 1 {
        return None;
    }
    match &prefix[0] {
        PrefixItemShape::IoRedirect(redir, true) => match redir {
            IoRedirect::File(fd, IoFileRedirectKind::Read) => match fd {
                None => Some(redir),
                Some(n) => if *n == 0 {
                    Some(redir)
                } else {
                    None
                },
            },
            _ => None,
        },
        _ => None,
    }
}

/// An argument to a command.
#[derive(Clone, Debug)]
pub enum CommandArg {
    /// A simple string argument.
    String(String),
    /// An assignment/declaration (`name=value`, or `name+=value` to append), as its parts'
    /// texts; typically treated as a string, but specially handled by a few builtins.
    Assignment {
        /// The text of the assigned name (with its subscript, if any).
        name: String,
        /// Whether the value is appended.
        append: bool,
        /// The text of the value.
        value: String,
    },
}

/// The `=` or `+=` of an assignment.
pub open spec fn assignment_op(append: bool) -> Seq<char> {
    if append {
        seq!['+', '=']
    } else {
        seq!['=']
    }
}

/// The text of a command argument: the string, or the assignment as written.
pub open spec fn arg_text(a: CommandArg) -> Seq<char> {
    match a {
        CommandArg::String(s) => s@,
        CommandArg::Assignment { name, append, value } => name@ + assignment_op(append) + value@,
    }
}

/// How a command argument is shown in a trace: a string quoted in single quotes if it
/// needs quoting; an assignment with its value so quoted.
pub open spec fn traced_text(a: CommandArg) -> Seq<char> {
    let single = crate::escape::QuoteOptions {
        always_quote: false,
        preferred_mode: crate::escape::QuoteMode::SingleQuote,
        avoid_ansi_c_quoting_newline: false,
    };
    match a {
        CommandArg::String(s) => crate::escape::quoted(s@, single),
        CommandArg::Assignment { name, append, value } => name@ + assignment_op(append) + crate::escape::quoted(value@, single),
    }
}

impl CommandArg {
    /// Returns the argument's text (see [`arg_text`]).
    pub fn text(&self) -> (r: String)
        ensures
            r@ == arg_text(*self),
    {
        match self {
            CommandArg::String(s) => s.clone(),
            CommandArg::Assignment { name, append, value } => {
                let mut s = name.clone();
                if *append {
                    text::push_char(&mut s, '+');
                }
                text::push_char(&mut s, '=');
                text::push_str(&mut s, value.as_str());
                proof {
                    if *append {
                        assert(name@.push('+').push('=') + value@ =~= name@ + seq!['+', '='] + value@);
                    } else {
                        assert(name@.push('=') + value@ =~= name@ + seq!['='] + value@);
                    }
                }
                s
            },
        }
    }

    /// Returns the argument as a trace shows it (see [`traced_text`]).
    pub fn quote_for_tracing(&self) -> (r: String)
        ensures
            r@ == traced_text(*self),
    {
        match self {
            CommandArg::String(s) => crate::escape::quote_if_needed(s.as_str(), crate::escape::QuoteMode::SingleQuote),
            CommandArg::Assignment { name, append, value } => {
                let mut s = name.clone();
                if *append {
                    text::push_char(&mut s, '+');
                }
                text::push_char(&mut s, '=');
                let quoted = crate::escape::quote_if_needed(value.as_str(), crate::escape::QuoteMode::SingleQuote);
                text::push_str(&mut s, quoted.as_str());
                proof {
                    if *append {
                        assert(name@.push('+').push('=') + quoted@ =~= name@ + seq!['+', '='] + quoted@);
                    } else {
                        assert(name@.push('=') + quoted@ =~= name@ + seq!['='] + quoted@);
                    }
                }
                s
            },
        }
    }
}

/// How an external command's process joins process groups.
#[derive(Debug, Clone, Copy, PartialEq, Eq, Structural)]
pub enum ProcessGroupSetup {
    /// It leads a new session (which gives it a new process group and the terminal).
    LeadSession,
    /// It leads a new process group in the current session, taking the terminal's
    /// foreground if `take_foreground`.
    NewGroup {
        /// Whether it takes the terminal's foreground.
        take_foreground: bool,
    },
    /// It joins the process group `pgid`.
    JoinGroup(i32),
    /// It stays in the shell's process group.
    Inherit,
}

/// The process-group setup of an external command: one that leads its own group (an
/// interactive shell's job) leads a new session if its stdin is a terminal and the shell
/// has commands lead sessions, else a new group (taking the foreground if its stdin is a
/// terminal); any other command joins the pipeline's group if there is one.
pub open spec fn process_group_setup(
    new_group: bool,
    stdin_is_terminal: bool,
    leads_session: bool,
    pipeline_group: Option<i32>,
) -> ProcessGroupSetup {
    if new_group {
        if stdin_is_terminal && leads_session {
            ProcessGroupSetup::LeadSession
        } else {
            ProcessGroupSetup::NewGroup { take_foreground: stdin_is_terminal }
        }
    } else {
        match pipeline_group {
            Some(pgid) => ProcessGroupSetup::JoinGroup(pgid),
            None => ProcessGroupSetup::Inherit,
        }
    }
}

/// Returns the process-group setup of an external command (see [`process_group_setup`]).
pub fn choose_process_group_setup(
    new_group: bool,
    stdin_is_terminal: bool,
    leads_session: bool,
    pipeline_group: Option<i32>,
) -> (r: ProcessGroupSetup)
    ensures
        r == process_group_setup(new_group, stdin_is_terminal, leads_session, pipeline_group),
{
    if new_group {
        if stdin_is_terminal && leads_session {
            ProcessGroupSetup::LeadSession
        } else {
            ProcessGroupSetup::NewGroup { take_foreground: stdin_is_terminal }
        }
    } else {
        match pipeline_group {
            Some(pgid) => ProcessGroupSetup::JoinGroup(pgid),
            None => ProcessGroupSetup::Inherit,
        }
    }
}

/// Whether a command leads its own process group: in an interactive shell, when the
/// policy asks for a new group.
pub fn should_cmd_lead_own_process_group(interactive: bool, new_group_policy: bool) -> (r: bool)
    ensures
        r == (interactive && new_group_policy),
{
    interactive && new_group_policy
}

/// Which error starting a command failed with: a missing command (the spawn found nothing)
/// is reported as a missing working directory if that is gone, else as the command not
/// being found; any other failure is the command failing to execute.
pub fn spawn_failure_error(
    command_name: String,
    error: std::io::Error,
    not_found: bool,
    working_dir: PathBuf,
    working_dir_exists: bool,
) -> (r: Error)
    ensures
        not_found && !working_dir_exists ==> (r.spec_kind() matches ErrorKind::WorkingDirMissing(p) && p == working_dir),
        not_found && working_dir_exists ==> (r.spec_kind() matches ErrorKind::CommandNotFound(n) && n@ == command_name@),
        !not_found ==> (r.spec_kind() matches ErrorKind::FailedToExecuteCommand(n, e) && n@ == command_name@ && e == error),
{
    if not_found {
        if !working_dir_exists {
            Error::new(ErrorKind::WorkingDirMissing(working_dir))
        } else {
            Error::new(ErrorKind::CommandNotFound(command_name))
        }
    } else {
        Error::new(ErrorKind::FailedToExecuteCommand(command_name, error))
    }
}

/// `&>` and `&>>` redirect stdout to the file as `>` and `>>` do: `&>` truncates the file
/// (mode `Write`) and only `&>>` appends; likewise `>` writes, `>>` appends and `<` reads,
/// on the descriptor given or, by default, stdout or stdin.
pub proof fn law_redirect_modes(path: Seq<char>, append: bool, fd: Option<i32>)
    ensures
        converted(IoRedirect::OutputAndError(append), Some(path)) == converted(
            IoRedirect::File(Some(1), if append { IoFileRedirectKind::Append } else { IoFileRedirectKind::Write }),
            Some(path),
        ),
        converted(IoRedirect::OutputAndError(append), Some(path)) matches Some((n, t, m)) && n == 1 && t
            == TargetView::FilePath(path) && (m == RedirectionMode::Append <==> append) && (!append ==> m
            == RedirectionMode::Write),
        converted(IoRedirect::File(fd, IoFileRedirectKind::Write), Some(path)) matches Some((n, t, m)) && m
            == RedirectionMode::Write && t == TargetView::FilePath(path) && n == (match fd {
            Some(k) => k,
            None => 1i32,
        }),
        converted(IoRedirect::File(fd, IoFileRedirectKind::Append), Some(path)) matches Some((n, t, m)) && m
            == RedirectionMode::Append && t == TargetView::FilePath(path) && n == (match fd {
            Some(k) => k,
            None => 1i32,
        }),
        converted(IoRedirect::File(fd, IoFileRedirectKind::Read), Some(path)) matches Some((n, t, m)) && m
            == RedirectionMode::Read && t == TargetView::FilePath(path) && n == (match fd {
            Some(k) => k,
            None => 0i32,
        }),
{
}

} // verus!
