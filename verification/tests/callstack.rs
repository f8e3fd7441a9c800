use brush_core::callstack::{CallStack, Frame, FrameType, ScriptCall, ScriptCallType};
use brush_core::functions::Registration;
use brush_core::source::{SourceInfo, SourcePosition};

#[test]
fn test_call_stack_new() {
    let stack = CallStack::new();
    assert!(stack.is_empty());
    assert_eq!(stack.depth(), 0);
}

#[test]
fn test_call_stack_default() {
    let stack = CallStack::default();
    assert!(stack.is_empty());
    assert_eq!(stack.depth(), 0);
}

#[test]
fn test_call_stack_pop_empty() {
    let mut stack = CallStack::new();
    assert!(stack.pop().is_none());
}

#[test]
fn test_call_stack_push_pop() {
    let mut stack = CallStack::new();
    stack.push_script(ScriptCallType::Source, &SourceInfo::from_source("script1.sh"), vec![]);
    assert!(!stack.is_empty());
    assert_eq!(stack.depth(), 1);
    assert_eq!(stack.script_call_depth(), 1);
    stack.push_script(ScriptCallType::Run, &SourceInfo::from_source("script2.sh"), vec![]);
    assert_eq!(stack.depth(), 2);
    assert_eq!(stack.script_call_depth(), 1);

    let frame = stack.pop().unwrap();
    assert!(matches!(
        frame.frame_type,
        FrameType::Script(ScriptCall { call_type: ScriptCallType::Run, source_info: SourceInfo { source, .. } })
            if source == "script2.sh"
    ));
    assert_eq!(stack.depth(), 1);
    let frame = stack.pop().unwrap();
    assert!(matches!(
        frame.frame_type,
        FrameType::Script(ScriptCall { call_type: ScriptCallType::Source, source_info: SourceInfo { source, .. } })
            if source == "script1.sh"
    ));
    assert!(stack.is_empty());
    assert_eq!(stack.script_call_depth(), 0);
}

#[test]
fn test_in_sourced_script() {
    let mut stack = CallStack::new();
    assert!(!stack.in_sourced_script());
    stack.push_script(ScriptCallType::Run, &SourceInfo::from_source("script1.sh"), vec![]);
    assert!(!stack.in_sourced_script());
    stack.push_script(ScriptCallType::Source, &SourceInfo::from_source("script2.sh"), vec![]);
    assert!(stack.in_sourced_script());
    stack.pop();
    assert!(!stack.in_sourced_script());
}

#[test]
fn test_call_stack_iter() {
    let mut stack = CallStack::new();
    stack.push_script(ScriptCallType::Source, &SourceInfo::from_source("script1.sh"), vec![]);
    stack.push_script(ScriptCallType::Run, &SourceInfo::from_source("script2.sh"), vec![]);
    stack.push_script(ScriptCallType::Source, &SourceInfo::from_source("script3.sh"), vec![]);

    let frames = stack.iter();
    assert_eq!(frames.len(), 3);
    assert!(matches!(&frames[0].frame_type, FrameType::Script(ScriptCall { source_info: SourceInfo { source, .. }, .. }) if source == "script3.sh"));
    assert!(matches!(&frames[1].frame_type, FrameType::Script(ScriptCall { source_info: SourceInfo { source, .. }, .. }) if source == "script2.sh"));
    assert!(matches!(&frames[2].frame_type, FrameType::Script(ScriptCall { source_info: SourceInfo { source, .. }, .. }) if source == "script1.sh"));
}

#[test]
fn call_stack_iterates_most_recent_first() {
    let mut stack = CallStack::new();
    stack.push_script(ScriptCallType::Source, &SourceInfo::from_source("script1.sh"), vec![]);
    stack.push_eval();
    stack.push_trap_handler(None);
    let frames = stack.iter();
    assert_eq!(frames.len(), 3);
    assert_eq!(frames[0].frame_type.name(), "trap");
    assert_eq!(frames[1].frame_type.name(), "eval");
    assert_eq!(frames[2].frame_type.name(), "script1.sh");
    assert_eq!(stack.trap_handler_depth(), 1);
}

#[test]
fn call_stack_counts_function_calls() {
    let mut stack = CallStack::new();
    let reg = Registration::new(
        Some(SourcePosition { index: 0, line: 3, column: 1 }),
        &SourceInfo::from_source("lib.sh"),
    );
    assert!(!stack.in_function());
    stack.push_function("f", &reg, vec!["a".to_owned()]);
    stack.push_function("g", &reg, vec![]);
    assert!(stack.in_function());
    assert_eq!(stack.function_call_depth(), 2);
    let calls = stack.iter_function_calls();
    assert_eq!(calls.len(), 2);
    assert_eq!(calls[0].name(), "g");
    assert_eq!(calls[1].name(), "f");
    assert_eq!(stack.current_frame().unwrap().entry.unwrap().line, 3);
    stack.pop();
    stack.pop();
    assert_eq!(stack.function_call_depth(), 0);
}

#[test]
fn frame_positions_combine_with_source_start() {
    let frame = Frame {
        frame_type: FrameType::Eval,
        source_info: SourceInfo {
            source: "x.sh".to_owned(),
            start: Some(SourcePosition { index: 10, line: 5, column: 3 }),
        },
        entry: Some(SourcePosition { index: 0, line: 2, column: 1 }),
        current: Some(SourcePosition { index: 4, line: 1, column: 5 }),
        args: vec![],
        current_line_offset: 0,
    };
    let si = frame.current_pos_as_source_info();
    assert_eq!(si.source, "x.sh");
    assert_eq!(si.start, Some(SourcePosition { index: 14, line: 5, column: 7 }));
    assert_eq!(frame.current_line(), Some(5));
    assert_eq!(frame.current_frame_relative_line(), Some(1));
}

#[test]
fn frame_line_offset_moves_position_down() {
    let mut stack = CallStack::new();
    stack.push_command_string();
    stack.increment_current_line_offset(2);
    let si = stack.current_pos_as_source_info();
    assert_eq!(si.source, "environment");
    assert_eq!(si.start, Some(SourcePosition { index: 0, line: 3, column: 1 }));
    stack.set_current_pos(Some(SourcePosition { index: 7, line: 4, column: 2 }));
    let si = stack.current_pos_as_source_info();
    assert_eq!(si.start, Some(SourcePosition { index: 7, line: 6, column: 2 }));
}

#[test]
fn registration_attribute_flags() {
    let mut reg = Registration::new(None, &SourceInfo::default());
    assert_eq!(reg.attribute_flags(), "f");
    reg.set_readonly();
    reg.export();
    assert_eq!(reg.attribute_flags(), "frx");
    reg.enable_trace();
    assert_eq!(reg.attribute_flags(), "frtx");
    reg.unexport();
    reg.disable_trace();
    assert_eq!(reg.attribute_flags(), "fr");
}
