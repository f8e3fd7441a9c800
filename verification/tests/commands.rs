use std::borrow::Cow;

use brush_core::commands::{
    convert_redirect_to_info, get_default_fd_for_redirect_kind, IoFileRedirectKind, IoRedirect, RedirectionInfo,
    RedirectionMode, RedirectionTarget,
};

#[test]
fn default_fds_for_redirect_kinds() {
    assert_eq!(get_default_fd_for_redirect_kind(IoFileRedirectKind::Read), 0);
    assert_eq!(get_default_fd_for_redirect_kind(IoFileRedirectKind::ReadAndWrite), 0);
    assert_eq!(get_default_fd_for_redirect_kind(IoFileRedirectKind::DuplicateInput), 0);
    assert_eq!(get_default_fd_for_redirect_kind(IoFileRedirectKind::Write), 1);
    assert_eq!(get_default_fd_for_redirect_kind(IoFileRedirectKind::Append), 1);
    assert_eq!(get_default_fd_for_redirect_kind(IoFileRedirectKind::Clobber), 1);
    assert_eq!(get_default_fd_for_redirect_kind(IoFileRedirectKind::DuplicateOutput), 1);
}

#[test]
fn file_redirect_uses_default_fd_and_expanded_path() {
    let info = convert_redirect_to_info(&IoRedirect::File(None, IoFileRedirectKind::Append), Some("out.txt"));
    assert_eq!(
        info,
        Some(RedirectionInfo { fd: 1, target: RedirectionTarget::FilePath(Cow::Borrowed("out.txt")), mode: RedirectionMode::Append })
    );
    let info = convert_redirect_to_info(&IoRedirect::File(Some(3), IoFileRedirectKind::Read), Some("in"));
    assert_eq!(
        info,
        Some(RedirectionInfo { fd: 3, target: RedirectionTarget::FilePath(Cow::Borrowed("in")), mode: RedirectionMode::Read })
    );
}

#[test]
fn file_redirect_without_target_is_none() {
    assert_eq!(convert_redirect_to_info(&IoRedirect::File(None, IoFileRedirectKind::Write), None), None);
    assert_eq!(convert_redirect_to_info(&IoRedirect::OutputAndError(false), None), None);
}

#[test]
fn duplication_targets_a_descriptor() {
    let info = convert_redirect_to_info(&IoRedirect::File(Some(2), IoFileRedirectKind::DuplicateOutput), Some("1"));
    assert_eq!(
        info,
        Some(RedirectionInfo { fd: 2, target: RedirectionTarget::FileDescriptor(1), mode: RedirectionMode::Write })
    );
    // A trailing dash (closing form) is dropped before the descriptor is read.
    let info = convert_redirect_to_info(&IoRedirect::File(None, IoFileRedirectKind::DuplicateInput), Some("4-"));
    assert_eq!(
        info,
        Some(RedirectionInfo { fd: 0, target: RedirectionTarget::FileDescriptor(4), mode: RedirectionMode::Read })
    );
    assert_eq!(
        convert_redirect_to_info(&IoRedirect::File(None, IoFileRedirectKind::DuplicateOutput), Some("x")),
        None
    );
}

#[test]
fn here_documents_and_strings_read_from_fd_zero() {
    let info = convert_redirect_to_info(&IoRedirect::HereDocument(None, String::from("body\n")), None);
    assert_eq!(
        info,
        Some(RedirectionInfo { fd: 0, target: RedirectionTarget::HereDoc(Cow::Borrowed("body\n")), mode: RedirectionMode::Read })
    );
    let info = convert_redirect_to_info(&IoRedirect::HereDocument(Some(5), String::from("raw")), Some("expanded"));
    assert_eq!(
        info,
        Some(RedirectionInfo { fd: 5, target: RedirectionTarget::HereDoc(Cow::Borrowed("expanded")), mode: RedirectionMode::Read })
    );
    let info = convert_redirect_to_info(&IoRedirect::HereString(None), Some("word"));
    assert_eq!(
        info,
        Some(RedirectionInfo { fd: 0, target: RedirectionTarget::HereString(Cow::Borrowed("word")), mode: RedirectionMode::Read })
    );
}

#[test]
fn output_and_error_redirect_targets_stdout() {
    let info = convert_redirect_to_info(&IoRedirect::OutputAndError(true), Some("log"));
    assert_eq!(
        info,
        Some(RedirectionInfo { fd: 1, target: RedirectionTarget::FilePath(Cow::Borrowed("log")), mode: RedirectionMode::Append })
    );
}

use brush_core::commands::{
    try_unwrap_bare_input_redir_program, AndOrShape, CommandShape, PipelineShape, PrefixItemShape, ProgramShape,
    SimpleCommandShape,
};

fn program_of(prefix: Option<Vec<PrefixItemShape>>, has_name: bool, bang: bool, additional: usize) -> ProgramShape {
    let simple = SimpleCommandShape { has_word_or_name: has_name, has_suffix: false, prefix };
    let pipeline = PipelineShape { bang, seq: vec![CommandShape::Simple(simple)] };
    ProgramShape { complete_commands: vec![vec![AndOrShape { first: pipeline, additional }]] }
}

fn read_from_file(fd: Option<i32>) -> PrefixItemShape {
    PrefixItemShape::IoRedirect(IoRedirect::File(fd, IoFileRedirectKind::Read), true)
}

#[test]
fn bare_input_redirect_is_recognized() {
    let p = program_of(Some(vec![read_from_file(None)]), false, false, 0);
    assert_eq!(try_unwrap_bare_input_redir_program(&p), Some(&IoRedirect::File(None, IoFileRedirectKind::Read)));
    let p = program_of(Some(vec![read_from_file(Some(0))]), false, false, 0);
    assert_eq!(try_unwrap_bare_input_redir_program(&p), Some(&IoRedirect::File(Some(0), IoFileRedirectKind::Read)));
}

#[test]
fn other_programs_are_not_bare_input_redirects() {
    // A command name, a negation, an and-or chain, another fd, another kind, two items.
    assert!(try_unwrap_bare_input_redir_program(&program_of(Some(vec![read_from_file(None)]), true, false, 0)).is_none());
    assert!(try_unwrap_bare_input_redir_program(&program_of(Some(vec![read_from_file(None)]), false, true, 0)).is_none());
    assert!(try_unwrap_bare_input_redir_program(&program_of(Some(vec![read_from_file(None)]), false, false, 1)).is_none());
    assert!(try_unwrap_bare_input_redir_program(&program_of(Some(vec![read_from_file(Some(3))]), false, false, 0)).is_none());
    let write = PrefixItemShape::IoRedirect(IoRedirect::File(None, IoFileRedirectKind::Write), true);
    assert!(try_unwrap_bare_input_redir_program(&program_of(Some(vec![write]), false, false, 0)).is_none());
    let to_fd = PrefixItemShape::IoRedirect(IoRedirect::File(None, IoFileRedirectKind::Read), false);
    assert!(try_unwrap_bare_input_redir_program(&program_of(Some(vec![to_fd]), false, false, 0)).is_none());
    let two = vec![read_from_file(None), PrefixItemShape::Other];
    assert!(try_unwrap_bare_input_redir_program(&program_of(Some(two), false, false, 0)).is_none());
    assert!(try_unwrap_bare_input_redir_program(&program_of(None, false, false, 0)).is_none());
    assert!(try_unwrap_bare_input_redir_program(&ProgramShape { complete_commands: vec![] }).is_none());
}

use brush_core::commands::CommandArg;

#[test]
fn command_args_text_and_trace_quoting() {
    let plain = CommandArg::String("a b".into());
    assert_eq!(plain.text(), "a b");
    assert_eq!(plain.quote_for_tracing(), "'a b'");
    let word = CommandArg::String("ls".into());
    assert_eq!(word.quote_for_tracing(), "ls");
    let assign = CommandArg::Assignment { name: "x".into(), append: true, value: "1 2".into() };
    assert_eq!(assign.text(), "x+=1 2");
    assert_eq!(assign.quote_for_tracing(), "x+='1 2'");
    let set = CommandArg::Assignment { name: "y".into(), append: false, value: "v".into() };
    assert_eq!(set.quote_for_tracing(), "y=v");
}

use brush_core::commands::{choose_process_group_setup, should_cmd_lead_own_process_group, ProcessGroupSetup};

#[test]
fn process_group_setup_choices() {
    assert_eq!(choose_process_group_setup(true, true, true, Some(5)), ProcessGroupSetup::LeadSession);
    assert_eq!(choose_process_group_setup(true, true, false, None), ProcessGroupSetup::NewGroup { take_foreground: true });
    assert_eq!(choose_process_group_setup(true, false, true, None), ProcessGroupSetup::NewGroup { take_foreground: false });
    assert_eq!(choose_process_group_setup(false, true, true, Some(7)), ProcessGroupSetup::JoinGroup(7));
    assert_eq!(choose_process_group_setup(false, false, false, None), ProcessGroupSetup::Inherit);
    assert!(should_cmd_lead_own_process_group(true, true));
    assert!(!should_cmd_lead_own_process_group(false, true));
}

#[test]
fn spawn_failures_map_to_errors() {
    let nf = || std::io::Error::from(std::io::ErrorKind::NotFound);
    let e = brush_core::commands::spawn_failure_error("ls".to_owned(), nf(), true, std::path::PathBuf::from("/gone"), false);
    assert!(matches!(e.kind(), brush_core::error::ErrorKind::WorkingDirMissing(p) if p == &std::path::PathBuf::from("/gone")));
    let e = brush_core::commands::spawn_failure_error("ls".to_owned(), nf(), true, std::path::PathBuf::from("/"), true);
    assert!(matches!(e.kind(), brush_core::error::ErrorKind::CommandNotFound(n) if n == "ls"));
    let denied = std::io::Error::from(std::io::ErrorKind::PermissionDenied);
    let e = brush_core::commands::spawn_failure_error("ls".to_owned(), denied, false, std::path::PathBuf::from("/"), true);
    assert!(matches!(e.kind(), brush_core::error::ErrorKind::FailedToExecuteCommand(n, _) if n == "ls"));
}
