//! Scope types and lookup policies.

use vstd::prelude::*;

verus! {

/// Represents the policy for looking up variables in a shell environment.
#[derive(Clone, Copy, Debug, PartialEq, Eq, Structural)]
pub enum EnvironmentLookup {
    /// Look anywhere.
    Anywhere,
    /// Look only in the global scope.
    OnlyInGlobal,
    /// Look only in the current local scope.
    OnlyInCurrentLocal,
    /// Look only in local scopes.
    OnlyInLocal,
}

/// Represents a shell environment scope.
#[derive(Clone, Copy, Debug, PartialEq, Eq, Structural)]
pub enum EnvironmentScope {
    /// Scope local to a function instance
    Local,
    /// Globals
    Global,
    /// Transient overrides for a command invocation
    Command,
}

/// Whether a scope of type `scope` passes `policy`, when `local_count` local scopes
/// (including this one) have been visited walking the stack from the top.
pub open spec fn admits_scope(policy: EnvironmentLookup, scope: EnvironmentScope, local_count: int) -> bool {
    match policy {
        EnvironmentLookup::Anywhere => true,
        EnvironmentLookup::OnlyInGlobal => scope == EnvironmentScope::Global,
        EnvironmentLookup::OnlyInCurrentLocal => scope == EnvironmentScope::Local && local_count == 1,
        EnvironmentLookup::OnlyInLocal => scope == EnvironmentScope::Local,
    }
}

/// Whether a walk under `policy` stops after a scope of type `scope`: the current-local
/// policy stops at the first local scope.
pub open spec fn stops_after(policy: EnvironmentLookup, scope: EnvironmentScope) -> bool {
    policy == EnvironmentLookup::OnlyInCurrentLocal && scope == EnvironmentScope::Local
}

impl EnvironmentLookup {
    /// Returns `true` if the given scope passes this policy's filter; `local_count` is the
    /// number of local scopes visited so far (including the current one) walking the
    /// stack from the top.
    pub fn admits(self, scope: EnvironmentScope, local_count: usize) -> (r: bool)
        ensures
            r == admits_scope(self, scope, local_count as int),
    {
        match self {
            EnvironmentLookup::Anywhere => true,
            EnvironmentLookup::OnlyInGlobal => matches!(scope, EnvironmentScope::Global),
            EnvironmentLookup::OnlyInCurrentLocal => matches!(scope, EnvironmentScope::Local)
                && local_count == 1,
            EnvironmentLookup::OnlyInLocal => matches!(scope, EnvironmentScope::Local),
        }
    }

    /// Returns `true` if a walk should stop after visiting this scope.
    pub fn terminates_after(self, scope: EnvironmentScope) -> (r: bool)
        ensures
            r == stops_after(self, scope),
    {
        matches!(self, EnvironmentLookup::OnlyInCurrentLocal) && matches!(scope, EnvironmentScope::Local)
    }
}

impl EnvironmentScope {
    /// The scope's name: `local`, `global` or `command`.
    pub fn as_str(&self) -> (r: &'static str)
        ensures
            r@ == match self {
                EnvironmentScope::Local => "local"@,
                EnvironmentScope::Global => "global"@,
                EnvironmentScope::Command => "command"@,
            },
    {
        match self {
            EnvironmentScope::Local => "local",
            EnvironmentScope::Global => "global",
            EnvironmentScope::Command => "command",
        }
    }
}

} // verus!
