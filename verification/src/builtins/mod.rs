//! Builtin commands: the parts of them that stand apart from the shell.

pub mod unset;
