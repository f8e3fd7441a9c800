//! The call stack: the scripts, functions, trap handlers and other contexts being run, most
//! recent first, with the number of function calls, sourced scripts and trap handlers among
//! them.

use std::collections::VecDeque;

use vstd::prelude::*;

use crate::functions::Registration;
use crate::source::{SourceInfo, SourcePosition};

verus! {

/// The type of script call.
#[derive(Clone, Copy, Debug, PartialEq, Eq, Structural)]
pub enum ScriptCallType {
    /// A script was sourced.
    Source,
    /// A script was executed.
    Run,
}

/// Encapsulates info regarding a script call.
#[derive(Debug)]
pub struct ScriptCall {
    /// The type of script call.
    pub call_type: ScriptCallType,
    /// The source info for the script called.
    pub source_info: SourceInfo,
}

impl ScriptCall {
    /// Returns the name of the script that was called.
    pub fn name(&self) -> (r: String)
        ensures
            r@ == self.source_info.source@,
    {
        self.source_info.source.clone()
    }
}

/// Describes the target of a function call.
#[derive(Debug)]
pub struct FunctionCall {
    /// The name of the function invoked.
    pub function_name: String,
    /// The invoked function.
    pub function: Registration,
}

impl FunctionCall {
    /// Returns the name of the function that was called.
    pub fn name(&self) -> (r: String)
        ensures
            r@ == self.function_name@,
    {
        self.function_name.clone()
    }
}

/// The type of a frame: how it was entered.
#[derive(Debug)]
pub enum FrameType {
    /// A script was called (sourced or executed).
    Script(ScriptCall),
    /// A function was called.
    Function(FunctionCall),
    /// A trap handler was invoked.
    TrapHandler,
    /// A string was eval'd.
    Eval,
    /// A command-line string (i.e., -c) was executed.
    CommandString,
    /// An interactive command session was started.
    InteractiveSession,
}

/// The name of a frame type: the script path or function name, or `trap`, `eval`, `-c` or
/// `interactive`.
pub open spec fn frame_type_name(t: FrameType) -> Seq<char> {
    match t {
        FrameType::Script(call) => call.source_info.source@,
        FrameType::Function(call) => call.function_name@,
        FrameType::TrapHandler => "trap"@,
        FrameType::Eval => "eval"@,
        FrameType::CommandString => "-c"@,
        FrameType::InteractiveSession => "interactive"@,
    }
}

/// Whether a frame type is a sourced script.
pub open spec fn is_sourced(t: FrameType) -> bool {
    t matches FrameType::Script(call) && call.call_type == ScriptCallType::Source
}

impl FrameType {
    /// Returns a name for the frame (see [`frame_type_name`]).
    pub fn name(&self) -> (r: String)
        ensures
            r@ == frame_type_name(*self),
    {
        match self {
            FrameType::Script(call) => call.name(),
            FrameType::Function(call) => call.name(),
            FrameType::TrapHandler => "trap".to_owned(),
            FrameType::Eval => "eval".to_owned(),
            FrameType::CommandString => "-c".to_owned(),
            FrameType::InteractiveSession => "interactive".to_owned(),
        }
    }

    /// Returns `true` if the frame is for a function call.
    pub fn is_function(&self) -> (r: bool)
        ensures
            r == (*self is Function),
    {
        matches!(self, FrameType::Function(..))
    }

    /// Returns `true` if the frame is for a script call.
    pub fn is_script(&self) -> (r: bool)
        ensures
            r == (*self is Script),
    {
        matches!(self, FrameType::Script(..))
    }

    /// Returns `true` if the frame is for a trap handler.
    pub fn is_trap_handler(&self) -> (r: bool)
        ensures
            r == (*self is TrapHandler),
    {
        matches!(self, FrameType::TrapHandler)
    }

    /// Returns `true` if the frame is for an interactive session.
    pub fn is_interactive_session(&self) -> (r: bool)
        ensures
            r == (*self is InteractiveSession),
    {
        matches!(self, FrameType::InteractiveSession)
    }

    /// Returns `true` if the frame is for a command string being executed.
    pub fn is_command_string(&self) -> (r: bool)
        ensures
            r == (*self is CommandString),
    {
        matches!(self, FrameType::CommandString)
    }

    /// Returns `true` if the frame is for a sourced script.
    pub fn is_sourced_script(&self) -> (r: bool)
        ensures
            r == is_sourced(*self),
    {
        match self {
            FrameType::Script(call) => matches!(call.call_type, ScriptCallType::Source),
            _ => false,
        }
    }

    /// Returns `true` if the frame is for a run script.
    pub fn is_run_script(&self) -> (r: bool)
        ensures
            r == (*self matches FrameType::Script(call) && call.call_type == ScriptCallType::Run),
    {
        match self {
            FrameType::Script(call) => matches!(call.call_type, ScriptCallType::Run),
            _ => false,
        }
    }
}

/// Represents a single frame in a [`CallStack`].
#[derive(Debug)]
pub struct Frame {
    /// The type of frame.
    pub frame_type: FrameType,
    /// The source information for the frame; positions in it are relative to this.
    pub source_info: SourceInfo,
    /// The position of the frame's entry point, relative to `source_info`, if known.
    pub entry: Option<SourcePosition>,
    /// The position being executed (for an older frame, the one it called out from),
    /// relative to `source_info`, if known.
    pub current: Option<SourcePosition>,
    /// Positional arguments (not including `$0`).
    pub args: Vec<String>,
    /// An additional line offset within the current source context.
    pub current_line_offset: usize,
}

/// Whether combining a source start, a position relative to it and a line offset stays in
/// range (positions are 1-based).
pub open spec fn combinable(start: Option<SourcePosition>, pos: Option<SourcePosition>, offset: usize) -> bool {
    match (start, pos) {
        (Some(st), Some(c)) => {
            &&& st.index + c.index <= usize::MAX
            &&& c.line >= 1
            &&& st.line + c.line - 1 + offset <= usize::MAX
            &&& c.line <= 1 ==> c.column >= 1 && st.column + c.column - 1 <= usize::MAX
        },
        (Some(st), None) => st.line + offset <= usize::MAX,
        (None, Some(c)) => c.line + offset <= usize::MAX,
        (None, None) => offset + 1 <= usize::MAX,
    }
}

/// The start of a position relative to a source start, moved down by a line offset: the
/// indices add, the lines add (both 1-based), the columns add on the start's line; with no
/// start the position stands; a positive offset with neither gives line `offset + 1`.
pub open spec fn combined_start(start: Option<SourcePosition>, pos: Option<SourcePosition>, offset: usize) -> Option<
    SourcePosition,
> {
    let s1 = match start {
        Some(st) => match pos {
            Some(c) => Some(
                SourcePosition {
                    index: (st.index + c.index) as usize,
                    line: (st.line + c.line - 1) as usize,
                    column: if c.line <= 1 { (st.column + c.column - 1) as usize } else { c.column },
                },
            ),
            None => Some(st),
        },
        None => pos,
    };
    if offset > 0 {
        match s1 {
            Some(p) => Some(SourcePosition { line: (p.line + offset) as usize, ..p }),
            None => Some(SourcePosition { index: 0, line: (offset + 1) as usize, column: 1 }),
        }
    } else {
        s1
    }
}

impl Frame {
    /// Returns the position `pos` (relative to the frame's source) as a new source info
    /// (see [`combined_start`]).
    pub fn pos_as_source_info(&self, pos: Option<SourcePosition>) -> (r: SourceInfo)
        requires
            combinable(self.source_info.start, pos, self.current_line_offset),
        ensures
            r.source@ == self.source_info.source@,
            r.start == combined_start(self.source_info.start, pos, self.current_line_offset),
    {
        let mut new_start = match self.source_info.start {
            Some(existing_start) => match pos {
                Some(current) => Some(
                    SourcePosition {
                        index: existing_start.index + current.index,
                        line: existing_start.line + (current.line - 1),
                        column: if current.line <= 1 {
                            existing_start.column + (current.column - 1)
                        } else {
                            current.column
                        },
                    },
                ),
                None => Some(existing_start),
            },
            None => pos,
        };
        if self.current_line_offset > 0 {
            new_start = match new_start {
                Some(p) => Some(SourcePosition { line: p.line + self.current_line_offset, ..p }),
                None => Some(SourcePosition { index: 0, line: self.current_line_offset + 1, column: 1 }),
            };
        }
        SourceInfo { source: self.source_info.source.clone(), start: new_start }
    }

    /// Returns the frame's source info adjusted by its line offset.
    pub fn adjusted_source_info(&self) -> (r: SourceInfo)
        requires
            combinable(self.source_info.start, None, self.current_line_offset),
        ensures
            r.source@ == self.source_info.source@,
            r.start == combined_start(self.source_info.start, None, self.current_line_offset),
    {
        self.pos_as_source_info(None)
    }

    /// Returns the current position as a new source info.
    pub fn current_pos_as_source_info(&self) -> (r: SourceInfo)
        requires
            combinable(self.source_info.start, self.current, self.current_line_offset),
        ensures
            r.source@ == self.source_info.source@,
            r.start == combined_start(self.source_info.start, self.current, self.current_line_offset),
    {
        self.pos_as_source_info(self.current)
    }

    /// Returns the current line number: the current position's line counted from the
    /// start of the frame's source (line 1 if none), plus the line offset.
    pub fn current_line(&self) -> (r: Option<usize>)
        requires
            self.current matches Some(c) ==> (match self.source_info.start {
                Some(st) => if st.line >= 1 { st.line - 1 } else { 0 },
                None => 0,
            }) + c.line + self.current_line_offset <= usize::MAX,
        ensures
            match self.current {
                Some(c) => r == Some(
                    ((match self.source_info.start {
                        Some(st) => if st.line >= 1 { st.line - 1 } else { 0 },
                        None => 0,
                    }) + c.line + self.current_line_offset) as usize,
                ),
                None => r is None,
            },
    {
        let start_line = match self.source_info.start {
            Some(pos) => pos.line,
            None => 1,
        };
        match self.current {
            Some(c) => Some(start_line.saturating_sub(1) + c.line + self.current_line_offset),
            None => None,
        }
    }

    /// Returns the current line number relative to the frame's entry: lines past the entry
    /// line (line 1 if none; none if before it), plus the line offset, plus one.
    pub fn current_frame_relative_line(&self) -> (r: Option<usize>)
        requires
            self.current matches Some(c) ==> c.line + self.current_line_offset + 1 <= usize::MAX,
        ensures
            match self.current {
                Some(c) => {
                    let entry_line = match self.entry {
                        Some(e) => e.line,
                        None => 1,
                    };
                    r == Some(
                        ((if c.line >= entry_line { c.line - entry_line } else { 0 }) + self.current_line_offset
                            + 1) as usize,
                    )
                },
                None => r is None,
            },
    {
        let current_line = match self.current {
            Some(c) => c.line,
            None => {
                return None;
            },
        };
        let entry_line = match self.entry {
            Some(e) => e.line,
            None => 1,
        };
        Some(current_line.saturating_sub(entry_line) + self.current_line_offset + 1)
    }
}

/// Options for formatting a call stack.
#[derive(Clone, Copy, Debug, Default)]
pub struct FormatOptions {
    /// Whether or not to show args.
    pub show_args: bool,
    /// Whether or not to show frame entry points.
    pub show_entry_points: bool,
}

/// A call stack to format, with the options to format it with.
pub struct FormatCallStack<'a> {
    /// The call stack.
    pub stack: &'a CallStack,
    /// The options.
    pub options: &'a FormatOptions,
}

impl<'a> FormatCallStack<'a> {
    /// Pairs the call stack with the options to format it with.
    pub fn new(stack: &'a CallStack, options: &'a FormatOptions) -> (r: Self)
        ensures
            r.stack == stack,
            r.options == options,
    {
        FormatCallStack { stack, options }
    }
}

/// The number of function-call frames.
pub open spec fn function_frames(s: Seq<Frame>) -> int
    decreases s.len(),
{
    if s.len() == 0 {
        0
    } else {
        function_frames(s.drop_last()) + if s.last().frame_type is Function { 1int } else { 0int }
    }
}

/// The number of sourced-script frames.
pub open spec fn sourced_frames(s: Seq<Frame>) -> int
    decreases s.len(),
{
    if s.len() == 0 {
        0
    } else {
        sourced_frames(s.drop_last()) + if is_sourced(s.last().frame_type) { 1int } else { 0int }
    }
}

/// The number of trap-handler frames.
pub open spec fn trap_frames(s: Seq<Frame>) -> int
    decreases s.len(),
{
    if s.len() == 0 {
        0
    } else {
        trap_frames(s.drop_last()) + if s.last().frame_type is TrapHandler { 1int } else { 0int }
    }
}

/// Counting frames from the front: a frame put before others adds its own kind.
pub proof fn lemma_counts_push_front(s: Seq<Frame>, f: Frame)
    ensures
        function_frames(seq![f] + s) == function_frames(s) + if f.frame_type is Function { 1int } else { 0int },
        sourced_frames(seq![f] + s) == sourced_frames(s) + if is_sourced(f.frame_type) { 1int } else { 0int },
        trap_frames(seq![f] + s) == trap_frames(s) + if f.frame_type is TrapHandler { 1int } else { 0int },
        0 <= function_frames(s) <= s.len(),
        0 <= sourced_frames(s) <= s.len(),
        0 <= trap_frames(s) <= s.len(),
    decreases s.len(),
{
    if s.len() > 0 {
        lemma_counts_push_front(s.drop_last(), f);
        assert((seq![f] + s).drop_last() == seq![f] + s.drop_last());
        assert((seq![f] + s).last() == s.last());
        let t = seq![f] + s;
        assert(function_frames(t) == function_frames(t.drop_last()) + if t.last().frame_type is Function {
            1int
        } else {
            0int
        });
        assert(sourced_frames(t) == sourced_frames(t.drop_last()) + if is_sourced(t.last().frame_type) {
            1int
        } else {
            0int
        });
        assert(function_frames(s) == function_frames(s.drop_last()) + if s.last().frame_type is Function {
            1int
        } else {
            0int
        });
        assert(sourced_frames(s) == sourced_frames(s.drop_last()) + if is_sourced(s.last().frame_type) {
            1int
        } else {
            0int
        });
    } else {
        assert(seq![f] + s == seq![f]);
        assert(seq![f].drop_last() == Seq::<Frame>::empty());
        assert(seq![f].last() == f);
        reveal_with_fuel(function_frames, 2);
        reveal_with_fuel(sourced_frames, 2);
        reveal_with_fuel(trap_frames, 2);
    }
}

/// Encapsulates a script call stack.
#[derive(Debug)]
pub struct CallStack {
    frames: VecDeque<Frame>,
    func_call_depth: usize,
    script_source_depth: usize,
    trap_handler_depth: usize,
}

impl CallStack {
    /// The frames, most recent first.
    pub closed spec fn view(&self) -> Seq<Frame> {
        self.frames@
    }

    /// Well-formed: the depths count the function calls, sourced scripts and trap handlers
    /// on the stack.
    pub closed spec fn wf(&self) -> bool {
        &&& self.func_call_depth == function_frames(self.frames@)
        &&& self.script_source_depth == sourced_frames(self.frames@)
        &&& self.trap_handler_depth == trap_frames(self.frames@)
    }

    /// Creates a new empty call stack.
    pub fn new() -> (r: Self)
        ensures
            r.wf(),
            r@ == Seq::<Frame>::empty(),
    {
        CallStack { frames: VecDeque::new(), func_call_depth: 0, script_source_depth: 0, trap_handler_depth: 0 }
    }

    /// Pairs the call stack with options to format it with.
    pub fn format<'a>(&'a self, options: &'a FormatOptions) -> (r: FormatCallStack<'a>)
        ensures
            r.stack == self,
            r.options == options,
    {
        FormatCallStack::new(self, options)
    }

    /// Pushes a frame, counting its kind.
    fn push_frame(&mut self, frame: Frame)
        requires
            old(self).wf(),
        ensures
            final(self).wf(),
            final(self)@ == seq![frame] + old(self)@,
    {
        proof {
            lemma_counts_push_front(self.frames@, frame);
        }
        let is_function = frame.frame_type.is_function();
        let is_sourced = frame.frame_type.is_sourced_script();
        let is_trap = frame.frame_type.is_trap_handler();
        let ghost old_frames = self.frames@;
        self.frames.push_front(frame);
        let len = self.frames.len();
        proof {
            assert(self.frames@ == seq![frame] + old_frames);
        }
        if is_function {
            self.func_call_depth = self.func_call_depth + 1;
        }
        if is_sourced {
            self.script_source_depth = self.script_source_depth + 1;
        }
        if is_trap {
            self.trap_handler_depth = self.trap_handler_depth + 1;
        }
    }

    /// Removes the top frame from the stack and returns it; returns `None` if the stack is
    /// empty.
    pub fn pop(&mut self) -> (r: Option<Frame>)
        requires
            old(self).wf(),
        ensures
            final(self).wf(),
            old(self)@.len() == 0 ==> r is None && final(self)@ == old(self)@,
            old(self)@.len() > 0 ==> r == Some(old(self)@[0]) && final(self)@ == old(self)@.drop_first(),
    {
        let frame = match self.frames.pop_front() {
            Some(f) => f,
            None => {
                return None;
            },
        };
        proof {
            lemma_counts_push_front(self.frames@, frame);
            assert(old(self).frames@ == seq![frame] + self.frames@);
        }
        if frame.frame_type.is_function() {
            self.func_call_depth = self.func_call_depth - 1;
        }
        if frame.frame_type.is_sourced_script() {
            self.script_source_depth = self.script_source_depth - 1;
        }
        if frame.frame_type.is_trap_handler() {
            self.trap_handler_depth = self.trap_handler_depth - 1;
        }
        Some(frame)
    }

    /// Returns the current (topmost) frame, or `None` if the stack is empty.
    pub fn current_frame(&self) -> (r: Option<&Frame>)
        ensures
            self@.len() == 0 ==> r is None,
            self@.len() > 0 ==> (r matches Some(f) && *f == self@[0]),
    {
        if self.frames.len() == 0 {
            None
        } else {
            Some(&self.frames[0])
        }
    }

    /// Returns the position in the current frame as a new source info (an empty one if the
    /// stack is empty).
    pub fn current_pos_as_source_info(&self) -> (r: SourceInfo)
        requires
            self@.len() > 0 ==> combinable(self@[0].source_info.start, self@[0].current, self@[0].current_line_offset),
        ensures
            self@.len() == 0 ==> r.source@ == Seq::<char>::empty() && r.start is None,
            self@.len() > 0 ==> r.source@ == self@[0].source_info.source@ && r.start == combined_start(
                self@[0].source_info.start,
                self@[0].current,
                self@[0].current_line_offset,
            ),
    {
        if self.frames.len() == 0 {
            return SourceInfo::default();
        }
        self.frames[0].current_pos_as_source_info()
    }

    /// Updates the position being executed in the top frame (if any).
    pub fn set_current_pos(&mut self, position: Option<SourcePosition>)
        requires
            old(self).wf(),
        ensures
            final(self).wf(),
            old(self)@.len() == 0 ==> final(self)@ == old(self)@,
            old(self)@.len() > 0 ==> final(self)@.len() == old(self)@.len() && final(self)@.drop_first()
                == old(self)@.drop_first() && final(self)@[0] == (Frame { current: position, ..old(self)@[0] }),
    {
        match self.frames.pop_front() {
            Some(frame) => {
                let mut frame = frame;
                frame.current = position;
                proof {
                    lemma_counts_push_front(self.frames@, frame);
                    lemma_counts_push_front(self.frames@, old(self)@[0]);
                    assert(old(self).frames@ == seq![old(self)@[0]] + self.frames@);
                }
                let ghost rest = self.frames@;
                self.frames.push_front(frame);
                proof {
                    assert(self.frames@ == seq![frame] + rest);
                    assert(self.frames@.drop_first() == rest);
                }
            },
            None => {},
        }
    }

    /// Increments the line offset of the top frame (if any) by `delta`.
    pub fn increment_current_line_offset(&mut self, delta: usize)
        requires
            old(self).wf(),
            old(self)@.len() > 0 ==> old(self)@[0].current_line_offset + delta <= usize::MAX,
        ensures
            final(self).wf(),
            old(self)@.len() == 0 ==> final(self)@ == old(self)@,
            old(self)@.len() > 0 ==> final(self)@.len() == old(self)@.len() && final(self)@.drop_first()
                == old(self)@.drop_first() && final(self)@[0] == (Frame {
                current_line_offset: (old(self)@[0].current_line_offset + delta) as usize,
                ..old(self)@[0]
            }),
    {
        match self.frames.pop_front() {
            Some(frame) => {
                let mut frame = frame;
                frame.current_line_offset = frame.current_line_offset + delta;
                proof {
                    lemma_counts_push_front(self.frames@, frame);
                    lemma_counts_push_front(self.frames@, old(self)@[0]);
                    assert(old(self).frames@ == seq![old(self)@[0]] + self.frames@);
                }
                let ghost rest = self.frames@;
                self.frames.push_front(frame);
                proof {
                    assert(self.frames@ == seq![frame] + rest);
                    assert(self.frames@.drop_first() == rest);
                }
            },
            None => {},
        }
    }

    /// Pushes a script call frame: the script's source, the arguments, no position yet.
    pub fn push_script(&mut self, call_type: ScriptCallType, source_info: &SourceInfo, args: Vec<String>)
        requires
            old(self).wf(),
        ensures
            final(self).wf(),
            final(self)@.len() == old(self)@.len() + 1,
            final(self)@.drop_first() == old(self)@,
            final(self)@[0].frame_type matches FrameType::Script(call) && call.call_type == call_type
                && call.source_info.source@ == source_info.source@ && call.source_info.start == source_info.start,
            final(self)@[0].source_info.source@ == source_info.source@,
            final(self)@[0].source_info.start == source_info.start,
            final(self)@[0].args == args,
            final(self)@[0].entry is None && final(self)@[0].current is None,
            final(self)@[0].current_line_offset == 0,
    {
        let frame = Frame {
            frame_type: FrameType::Script(ScriptCall { call_type, source_info: source_info.duplicate() }),
            args,
            source_info: source_info.duplicate(),
            current_line_offset: 0,
            current: None,
            entry: None,
        };
        self.push_frame(frame);
    }

    /// Pushes a trap handler frame, with the handler's source if given (else an empty one).
    pub fn push_trap_handler(&mut self, handler_source: Option<&SourceInfo>)
        requires
            old(self).wf(),
        ensures
            final(self).wf(),
            final(self)@.len() == old(self)@.len() + 1,
            final(self)@.drop_first() == old(self)@,
            final(self)@[0].frame_type is TrapHandler,
            match handler_source {
                Some(s) => final(self)@[0].source_info.source@ == s.source@ && final(self)@[0].source_info.start
                    == s.start,
                None => final(self)@[0].source_info.source@ == Seq::<char>::empty()
                    && final(self)@[0].source_info.start is None,
            },
            final(self)@[0].args@ == Seq::<String>::empty(),
            final(self)@[0].entry is None && final(self)@[0].current is None,
            final(self)@[0].current_line_offset == 0,
    {
        let source_info = match handler_source {
            Some(s) => s.duplicate(),
            None => SourceInfo::default(),
        };
        let frame = Frame {
            frame_type: FrameType::TrapHandler,
            args: Vec::new(),
            source_info,
            current_line_offset: 0,
            current: None,
            entry: None,
        };
        self.push_frame(frame);
    }

    /// Pushes a frame of the given type for the named source, with no arguments.
    fn push_simple(&mut self, frame_type: FrameType, source: &str)
        requires
            old(self).wf(),
            !(frame_type is Function) && !is_sourced(frame_type) && !(frame_type is TrapHandler),
        ensures
            final(self).wf(),
            final(self)@.len() == old(self)@.len() + 1,
            final(self)@.drop_first() == old(self)@,
            final(self)@[0].frame_type == frame_type,
            final(self)@[0].source_info.source@ == source@,
            final(self)@[0].source_info.start is None,
            final(self)@[0].args@ == Seq::<String>::empty(),
            final(self)@[0].entry is None && final(self)@[0].current is None,
            final(self)@[0].current_line_offset == 0,
    {
        let frame = Frame {
            frame_type,
            args: Vec::new(),
            source_info: SourceInfo::from_source(source),
            current_line_offset: 0,
            current: None,
            entry: None,
        };
        self.push_frame(frame);
    }

    /// Pushes an eval frame (source `eval`).
    pub fn push_eval(&mut self)
        requires
            old(self).wf(),
        ensures
            final(self).wf(),
            final(self)@.len() == old(self)@.len() + 1,
            final(self)@.drop_first() == old(self)@,
            final(self)@[0].frame_type is Eval,
            final(self)@[0].source_info.source@ == "eval"@,
    {
        self.push_simple(FrameType::Eval, "eval");
    }

    /// Pushes a command string frame (source `environment`).
    pub fn push_command_string(&mut self)
        requires
            old(self).wf(),
        ensures
            final(self).wf(),
            final(self)@.len() == old(self)@.len() + 1,
            final(self)@.drop_first() == old(self)@,
            final(self)@[0].frame_type is CommandString,
            final(self)@[0].source_info.source@ == "environment"@,
    {
        self.push_simple(FrameType::CommandString, "environment");
    }

    /// Pushes an interactive session frame (source `main`).
    pub fn push_interactive_session(&mut self)
        requires
            old(self).wf(),
        ensures
            final(self).wf(),
            final(self)@.len() == old(self)@.len() + 1,
            final(self)@.drop_first() == old(self)@,
            final(self)@[0].frame_type is InteractiveSession,
            final(self)@[0].source_info.source@ == "main"@,
    {
        self.push_simple(FrameType::InteractiveSession, "main");
    }

    /// Pushes a function call frame: the function's source, entered where its definition
    /// starts, with the arguments.
    pub fn push_function(&mut self, name: &str, function: &Registration, args: Vec<String>)
        requires
            old(self).wf(),
        ensures
            final(self).wf(),
            final(self)@.len() == old(self)@.len() + 1,
            final(self)@.drop_first() == old(self)@,
            final(self)@[0].frame_type matches FrameType::Function(call) && call.function_name@ == name@
                && call.function@ == function@,
            final(self)@[0].source_info.source@ == function@.source,
            final(self)@[0].source_info.start == function@.source_start,
            final(self)@[0].entry == function@.definition_start,
            final(self)@[0].current is None,
            final(self)@[0].args == args,
            final(self)@[0].current_line_offset == 0,
    {
        let frame = Frame {
            frame_type: FrameType::Function(FunctionCall { function_name: name.to_owned(), function: function.duplicate() }),
            args,
            source_info: function.source().duplicate(),
            entry: function.definition_start(),
            current: None,
            current_line_offset: 0,
        };
        self.push_frame(frame);
    }

    /// Returns the frame at `index` (0 is the most recent).
    pub fn frame(&self, index: usize) -> (r: &Frame)
        requires
            index < self@.len(),
        ensures
            *r == self@[index as int],
    {
        &self.frames[index]
    }

    /// Returns the frames, most recent first.
    pub fn iter(&self) -> (r: Vec<&Frame>)
        ensures
            r@.len() == self@.len(),
            forall|i: int| 0 <= i < r@.len() ==> *r@[i] == self@[i],
    {
        let mut r: Vec<&Frame> = Vec::new();
        let mut i: usize = 0;
        while i < self.frames.len()
            invariant
                i <= self@.len(),
                r@.len() == i,
                forall|j: int| 0 <= j < i ==> *r@[j] == self@[j],
            decreases self@.len() - i,
        {
            r.push(&self.frames[i]);
            i = i + 1;
        }
        r
    }

    /// Returns the function calls on the stack, most recent first.
    pub fn iter_function_calls(&self) -> (r: Vec<&FunctionCall>)
        ensures
            r@.len() == function_frames(self@),
    {
        let mut r: Vec<&FunctionCall> = Vec::new();
        let mut i: usize = self.frames.len();
        let ghost mut found: Seq<Frame> = Seq::empty();
        proof {
            assert(self@.subrange(i as int, self@.len() as int) == Seq::<Frame>::empty());
        }
        while i > 0
            invariant
                i <= self@.len(),
                r@.len() == function_frames(self@.subrange(i as int, self@.len() as int)),
            decreases i,
        {
            proof {
                lemma_counts_push_front(self@.subrange(i as int, self@.len() as int), self@[i - 1]);
                assert(self@.subrange(i - 1, self@.len() as int) == seq![self@[i - 1]] + self@.subrange(
                    i as int,
                    self@.len() as int,
                ));
            }
            match &self.frames[i - 1].frame_type {
                FrameType::Function(call) => {
                    r.insert(0, call);
                },
                _ => {},
            }
            i = i - 1;
        }
        proof {
            assert(self@.subrange(0, self@.len() as int) == self@);
        }
        r
    }

    /// Returns whether the most recent script frame is a sourced one.
    pub fn in_sourced_script(&self) -> (r: bool)
        ensures
            r == exists|i: int| 0 <= i < self@.len() && self@[i].frame_type is Script && is_sourced(
                self@[i].frame_type,
            ) && forall|j: int| 0 <= j < i ==> !(self@[j].frame_type is Script),
    {
        let mut i: usize = 0;
        while i < self.frames.len()
            invariant
                i <= self@.len(),
                forall|j: int| 0 <= j < i ==> !(self@[j].frame_type is Script),
            decreases self@.len() - i,
        {
            match &self.frames[i].frame_type {
                FrameType::Script(call) => {
                    let r = matches!(call.call_type, ScriptCallType::Source);
                    proof {
                        if !r {
                            assert forall|k: int| 0 <= k < self@.len() && self@[k].frame_type is Script && is_sourced(
                                self@[k].frame_type,
                            ) implies exists|j: int| 0 <= j < k && self@[j].frame_type is Script by {
                                if k != i {
                                    assert(0 <= i < k);
                                }
                            }
                        }
                    }
                    return r;
                },
                _ => {},
            }
            i = i + 1;
        }
        false
    }

    /// Returns the number of function calls on the stack.
    pub fn function_call_depth(&self) -> (r: usize)
        requires
            self.wf(),
        ensures
            r == function_frames(self@),
    {
        self.func_call_depth
    }

    /// Returns the number of sourced scripts on the stack.
    pub fn script_call_depth(&self) -> (r: usize)
        requires
            self.wf(),
        ensures
            r == sourced_frames(self@),
    {
        self.script_source_depth
    }

    /// Returns the number of trap handlers on the stack.
    pub fn trap_handler_depth(&self) -> (r: usize)
        requires
            self.wf(),
        ensures
            r == trap_frames(self@),
    {
        self.trap_handler_depth
    }

    /// Returns whether a function call is on the stack.
    pub fn in_function(&self) -> (r: bool)
        requires
            self.wf(),
        ensures
            r == (function_frames(self@) > 0),
    {
        self.func_call_depth > 0
    }

    /// Returns the number of frames on the stack.
    pub fn depth(&self) -> (r: usize)
        ensures
            r == self@.len(),
    {
        self.frames.len()
    }

    /// Returns whether the stack is empty.
    pub fn is_empty(&self) -> (r: bool)
        ensures
            r == (self@.len() == 0),
    {
        self.frames.len() == 0
    }
}

impl Default for CallStack {
    fn default() -> (r: Self)
        ensures
            r.wf(),
            r@ == Seq::<Frame>::empty(),
    {
        CallStack::new()
    }
}

/// Pushing a frame and popping it gives the frame back and leaves the stack as it was.
pub proof fn law_push_then_pop(s: Seq<Frame>, f: Frame)
    ensures
        (seq![f] + s)[0] == f,
        (seq![f] + s).drop_first() == s,
{
    assert((seq![f] + s).drop_first() =~= s);
}

} // verus!
