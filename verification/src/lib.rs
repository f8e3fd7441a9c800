//! Core data structures and algorithms of a bash-compatible shell: the variable
//! environment with name references, the call stack, quoting and escaping, field
//! splitting, and the line model of programmable completion.

pub mod builtins;
pub mod callstack;
pub mod commands;
pub mod completion;
pub mod env;
pub mod error;
pub mod escape;
pub mod expansion;
pub mod extendedtests;
pub mod filter;
pub mod functions;
pub mod history;
pub mod int_utils;
pub mod quote_removal;
pub mod sorting;
pub mod source;
pub mod text;
pub mod variables;
