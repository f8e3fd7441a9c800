//! The `unset` builtin's options.

use vstd::prelude::*;

verus! {

/// How `unset` is to interpret the names it is given.
#[derive(Clone, Copy, Debug, Default, PartialEq, Eq, Structural)]
pub struct UnsetNameInterpretation {
    /// Treat each name as a shell function (`-f`).
    pub shell_functions: bool,
    /// Treat each name as a shell variable (`-v`).
    pub shell_variables: bool,
    /// Treat each name as a name reference (`-n`).
    pub name_references: bool,
}

impl UnsetNameInterpretation {
    /// Returns whether no interpretation was asked for, in which case a name is tried as a
    /// variable and then as a function.
    pub fn unspecified(&self) -> (r: bool)
        ensures
            r == (!self.shell_functions && !self.shell_variables && !self.name_references),
    {
        !self.shell_functions && !self.shell_variables && !self.name_references
    }
}

} // verus!
