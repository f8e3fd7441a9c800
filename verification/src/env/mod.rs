//! The shell variable environment: a stack of scopes of variables, with name references.
//!
//! A variable is found by walking the scopes from the top of the stack down; a lookup
//! policy restricts which scopes count. A name reference (nameref) is a variable whose
//! value names another variable; resolving a name follows such references, reporting a
//! cycle or a chain longer than [`MAX_NAMEREF_DEPTH`] as a [`NameRefFault`].

pub mod iter;
pub mod lookup;
pub mod mutation;
pub mod names;
pub mod properties;
pub mod scope;
pub mod var_map;

use vstd::prelude::*;

use crate::error::{Error, ErrorKind};
use crate::text;
use crate::variables::{nameref_target, ShellValue, ShellVariable};

pub use lookup::{
    DirectVarLookup, DirectVarLookupMut, ResolvedVarRef, ResolvedVarRefMut, VarLookup, VarLookupMut,
};
pub use mutation::{VarUpdate, VarWrite};
pub use names::{
    valid_nameref_target_name, valid_variable_name, BaseRef, FaultView, NameRef, NameRefFault,
    NameRefFaultKind, NameRefStrategy, ResolvedName, ResolvedNameView, ResolvedScope,
    UnparsedNameRef,
};
pub use scope::{EnvironmentLookup, EnvironmentScope};
pub use var_map::ShellVariableMap;

verus! {

/// Maximum depth for nameref chain resolution.
pub const MAX_NAMEREF_DEPTH: usize = 8;

/// The model of a scope: its type and its variables by name.
pub type ScopeView = (EnvironmentScope, Map<Seq<char>, ShellVariable>);

/// The position of the scope holding the variable `name` that a walk from scope `i - 1`
/// down to scope 0 finds under `policy`, having already passed `locals` local scopes.
pub open spec fn find_pos_from(
    scopes: Seq<ScopeView>,
    name: Seq<char>,
    policy: EnvironmentLookup,
    i: int,
    locals: int,
) -> Option<int>
    decreases i,
{
    if i <= 0 {
        None
    } else {
        let (st, m) = scopes[i - 1];
        let lc = if st == EnvironmentScope::Local { locals + 1 } else { locals };
        if scope::admits_scope(policy, st, lc) && m.contains_key(name) {
            Some(i - 1)
        } else if scope::stops_after(policy, st) {
            None
        } else {
            find_pos_from(scopes, name, policy, i - 1, lc)
        }
    }
}

/// The position of the scope holding the variable `name` (taken literally, no nameref
/// followed) that a walk from the top of the stack finds under `policy`.
pub open spec fn find_pos(scopes: Seq<ScopeView>, name: Seq<char>, policy: EnvironmentLookup) -> Option<int> {
    find_pos_from(scopes, name, policy, scopes.len() as int, 0)
}

/// The variable `name` (taken literally, no nameref followed) that a walk from the top of
/// the stack finds under `policy`, with the scope it is in.
pub open spec fn find_var(scopes: Seq<ScopeView>, name: Seq<char>, policy: EnvironmentLookup) -> Option<
    (EnvironmentScope, ShellVariable),
> {
    match find_pos(scopes, name, policy) {
        Some(j) => Some((scopes[j].0, scopes[j].1[name])),
        None => None,
    }
}

/// The scopes after the variable `var` is stored under `name` in scope `i`.
pub open spec fn with_var(scopes: Seq<ScopeView>, i: int, name: Seq<char>, var: ShellVariable) -> Seq<ScopeView> {
    scopes.update(i, (scopes[i].0, scopes[i].1.insert(name, var)))
}

/// A position found lies in the stack and holds the name.
pub proof fn lemma_find_pos_from(
    scopes: Seq<ScopeView>,
    name: Seq<char>,
    policy: EnvironmentLookup,
    i: int,
    locals: int,
)
    requires
        i <= scopes.len(),
    ensures
        find_pos_from(scopes, name, policy, i, locals) matches Some(j) ==> 0 <= j < i
            && scopes[j].1.contains_key(name),
    decreases i,
{
    if i > 0 {
        let (st, m) = scopes[i - 1];
        let lc = if st == EnvironmentScope::Local { locals + 1 } else { locals };
        lemma_find_pos_from(scopes, name, policy, i - 1, lc);
    }
}

/// The next link of a nameref chain at `name`: the scope of the variable found and the
/// name it references, if it is a live nameref.
pub open spec fn next_link(scopes: Seq<ScopeView>, name: Seq<char>, policy: EnvironmentLookup) -> Option<
    (EnvironmentScope, Seq<char>),
> {
    match find_var(scopes, name, policy) {
        Some((sc, v)) => match nameref_target(v@) {
            Some(t) => Some((sc, t)),
            None => None,
        },
        None => None,
    }
}

/// A circular-reference fault blaming `head`.
pub open spec fn circular(head: Seq<char>) -> FaultView {
    FaultView { kind: NameRefFaultKind::Circular, head }
}

/// The resolution of a self-referential nameref `self_name` found in `scope`: the global
/// variable of that name, unless the nameref is itself global (a cycle blamed on `blame`).
pub open spec fn self_reference(blame: Seq<char>, self_name: Seq<char>, scope: EnvironmentScope) -> Result<
    (Seq<char>, ResolvedScope),
    FaultView,
> {
    if scope == EnvironmentScope::Global {
        Err(circular(blame))
    } else {
        Ok((self_name, ResolvedScope::Global))
    }
}

/// Follows a nameref chain from `current`, having passed the names in `visited` (the first
/// of which is `head`): a name seen before is a cycle; a chain of more than
/// [`MAX_NAMEREF_DEPTH`] links is too deep; a name that is not a live nameref ends it.
pub open spec fn follow(
    scopes: Seq<ScopeView>,
    policy: EnvironmentLookup,
    head: Seq<char>,
    current: Seq<char>,
    visited: Seq<Seq<char>>,
) -> Result<(Seq<char>, ResolvedScope), FaultView>
    decreases 8 - visited.len(),
{
    if visited.contains(current) {
        Err(circular(head))
    } else {
        match next_link(scopes, current, policy) {
            None => Ok((current, ResolvedScope::Default)),
            Some((sc, t)) => if t == current {
                self_reference(head, current, sc)
            } else if visited.len() + 1 > 8 {
                Err(FaultView { kind: NameRefFaultKind::MaxDepthExceeded { max: 8 }, head })
            } else {
                follow(scopes, policy, head, t, visited.push(current))
            },
        }
    }
}

/// The target a name resolves to under `policy`: itself if it is not a live nameref,
/// else what its chain ends at (see [`follow`] and [`self_reference`]).
pub open spec fn resolve_chain(scopes: Seq<ScopeView>, name: Seq<char>, policy: EnvironmentLookup) -> Result<
    (Seq<char>, ResolvedScope),
    FaultView,
> {
    match next_link(scopes, name, policy) {
        None => Ok((name, ResolvedScope::Default)),
        Some((sc, t)) => if t == name {
            self_reference(name, name, sc)
        } else {
            follow(scopes, policy, name, t, seq![name])
        },
    }
}

/// The lookup policy for a resolved scope: the global scope for a self-referential
/// nameref, else `default`.
pub open spec fn policy_for(scope: ResolvedScope, default: EnvironmentLookup) -> EnvironmentLookup {
    match scope {
        ResolvedScope::Global => EnvironmentLookup::OnlyInGlobal,
        ResolvedScope::Default => default,
    }
}

/// The scope a variable is created in for a resolved scope.
pub open spec fn creation_scope_for(scope: ResolvedScope, default: EnvironmentScope) -> EnvironmentScope {
    match scope {
        ResolvedScope::Global => EnvironmentScope::Global,
        ResolvedScope::Default => default,
    }
}

/// The model of a stack of scopes.
pub open spec fn scopes_view(s: Seq<(EnvironmentScope, ShellVariableMap)>) -> Seq<ScopeView> {
    s.map_values(|p: (EnvironmentScope, ShellVariableMap)| (p.0, p.1@))
}

/// A stack of scopes is well-formed with `count` entries: each scope is well-formed and
/// `count`, a capacity hint, is at least the number of variables in all of them.
pub open spec fn scopes_wf(s: Seq<(EnvironmentScope, ShellVariableMap)>, count: int) -> bool {
    &&& forall|i: int| 0 <= i < s.len() ==> (#[trigger] s[i]).1.wf()
    &&& count >= total_entries(scopes_view(s))
}

/// The number of variables in all the scopes.
pub open spec fn total_entries(scopes: Seq<ScopeView>) -> int
    decreases scopes.len(),
{
    if scopes.len() == 0 {
        0
    } else {
        total_entries(scopes.drop_last()) + scopes.last().1.dom().len()
    }
}

/// Scopes hold a non-negative number of variables.
pub proof fn lemma_total_entries_nonneg(scopes: Seq<ScopeView>)
    ensures
        total_entries(scopes) >= 0,
    decreases scopes.len(),
{
    if scopes.len() > 0 {
        lemma_total_entries_nonneg(scopes.drop_last());
    }
}

impl ResolvedScope {
    /// The lookup policy for this resolved scope (see [`policy_for`]).
    pub fn lookup_policy_or(self, default: EnvironmentLookup) -> (r: EnvironmentLookup)
        ensures
            r == policy_for(self, default),
    {
        match self {
            ResolvedScope::Global => EnvironmentLookup::OnlyInGlobal,
            ResolvedScope::Default => default,
        }
    }

    /// The creation scope for this resolved scope (see [`creation_scope_for`]).
    pub fn creation_scope_or(self, default: EnvironmentScope) -> (r: EnvironmentScope)
        ensures
            r == creation_scope_for(self, default),
    {
        match self {
            ResolvedScope::Global => EnvironmentScope::Global,
            ResolvedScope::Default => default,
        }
    }
}

/// Represents the shell variable environment, composed of a stack of scopes.
#[derive(Debug)]
pub struct ShellEnvironment {
    scopes: Vec<(EnvironmentScope, ShellVariableMap)>,
    export_variables_on_modification: bool,
    entry_count: usize,
}

impl ShellEnvironment {
    /// The model: the scopes from the bottom (global) of the stack to its top.
    pub closed spec fn view(&self) -> Seq<ScopeView> {
        scopes_view(self.scopes@)
    }

    /// Whether new and modified variables are exported.
    pub closed spec fn auto_export(&self) -> bool {
        self.export_variables_on_modification
    }

    /// The entry count the environment keeps.
    pub closed spec fn spec_entry_count(&self) -> nat {
        self.entry_count as nat
    }

    /// Well-formed: each scope is, and the entry count is at least the number of variables
    /// in all the scopes (it is a capacity hint; a pop of a scope of the wrong type leaves
    /// it as it was).
    pub closed spec fn wf(&self) -> bool {
        scopes_wf(self.scopes@, self.entry_count as int)
    }

    /// Returns a new shell environment with an empty global scope.
    pub fn new() -> (env: Self)
        ensures
            env.wf(),
            env@ == seq![(EnvironmentScope::Global, Map::<Seq<char>, ShellVariable>::empty())],
            !env.auto_export(),
            env.spec_entry_count() == 0,
    {
        let mut scopes: Vec<(EnvironmentScope, ShellVariableMap)> = Vec::new();
        scopes.push((EnvironmentScope::Global, ShellVariableMap::new()));
        let env = ShellEnvironment { scopes, export_variables_on_modification: false, entry_count: 0 };
        proof {
            assert(env@ =~= seq![(EnvironmentScope::Global, Map::<Seq<char>, ShellVariable>::empty())]);
            assert(env@.drop_last() =~= Seq::<ScopeView>::empty());
            assert(env@.last().1.dom() =~= Set::<Seq<char>>::empty());
            reveal_with_fuel(total_entries, 2);
            assert(total_entries(env@) == 0);
            assert forall|i: int| 0 <= i < env.scopes@.len() implies (#[trigger] env.scopes@[i]).1.wf() by {
                assert(i == 0);
            }
        }
        env
    }

    /// The number of variables in all the scopes (a shadowed name counts once per scope).
    pub fn entry_count(&self) -> (r: usize)
        ensures
            r == self.spec_entry_count(),
    {
        self.entry_count
    }

    /// Sets whether new and modified variables are exported.
    pub fn set_export_variables_on_modification(&mut self, enabled: bool)
        requires
            old(self).wf(),
        ensures
            final(self).wf(),
            final(self)@ == old(self)@,
            final(self).auto_export() == enabled,
            final(self).spec_entry_count() == old(self).spec_entry_count(),
    {
        self.export_variables_on_modification = enabled;
    }

    /// The scopes of a well-formed environment hold finitely many variables each.
    proof fn lemma_scopes(&self)
        requires
            self.wf(),
        ensures
            forall|i: int| 0 <= i < self@.len() ==> (#[trigger] self@[i]).1.dom().finite()
                && self@[i].1.dom().len() == self.scopes@[i].1.size() && var_map::all_vars_wf(self@[i].1),
    {
        assert forall|i: int| 0 <= i < self@.len() implies (#[trigger] self@[i]).1.dom().finite()
            && self@[i].1.dom().len() == self.scopes@[i].1.size() && var_map::all_vars_wf(self@[i].1) by {
            assert(self.scopes@[i].1.wf());
            assert(self@[i] == (self.scopes@[i].0, self.scopes@[i].1@));
            self.scopes@[i].1.lemma_size();
        }
    }

    /// Pushes a new, empty scope of the given type onto the stack.
    pub fn push_scope(&mut self, scope_type: EnvironmentScope)
        requires
            old(self).wf(),
        ensures
            final(self).wf(),
            final(self)@ == old(self)@.push((scope_type, Map::<Seq<char>, ShellVariable>::empty())),
            final(self).auto_export() == old(self).auto_export(),
            final(self).spec_entry_count() == old(self).spec_entry_count(),
    {
        let ghost old_view = self@;
        self.scopes.push((scope_type, ShellVariableMap::new()));
        proof {
            assert(self@ =~= old_view.push((scope_type, Map::<Seq<char>, ShellVariable>::empty())));
            assert(self@.drop_last() =~= old_view);
            assert forall|i: int| 0 <= i < self.scopes@.len() implies (#[trigger] self.scopes@[i]).1.wf() by {
                if i < old(self).scopes@.len() {
                    assert(self.scopes@[i] == old(self).scopes@[i]);
                }
            }
        }
    }

    /// Pops the top-most scope off the stack, dropping its variables. The scope is popped
    /// even when it is not of the expected type, which is reported (a broken push/pop
    /// pairing); an empty stack is reported and left as it is.
    pub fn pop_scope(&mut self, expected_scope_type: EnvironmentScope) -> (r: Result<(), Error>)
        requires
            old(self).wf(),
        ensures
            final(self).wf(),
            final(self).auto_export() == old(self).auto_export(),
            old(self)@.len() == 0 ==> (r matches Err(e) && e.spec_kind() == ErrorKind::MissingScope
                && final(self)@ == old(self)@ && final(self).spec_entry_count() == old(self).spec_entry_count()),
            old(self)@.len() > 0 ==> final(self)@ == old(self)@.drop_last(),
            old(self)@.len() > 0 && old(self)@.last().0 == expected_scope_type ==> r is Ok
                && final(self).spec_entry_count() == old(self).spec_entry_count() - old(self)@.last().1.dom().len(),
            old(self)@.len() > 0 && old(self)@.last().0 != expected_scope_type ==> (r matches Err(e)
                && e.spec_kind() == (ErrorKind::UnexpectedScopeType {
                    expected: expected_scope_type,
                    actual: old(self)@.last().0,
                }) && final(self).spec_entry_count() == old(self).spec_entry_count()),
    {
        let n = self.scopes.len();
        if n == 0 {
            return Err(Error::new(ErrorKind::MissingScope));
        }
        let actual = self.scopes[n - 1].0;
        let ghost old_view = self@;
        proof {
            self.lemma_scopes();
        }
        let popped = self.scopes.pop();
        match popped {
            Some((_, map)) => {
                proof {
                    assert(self@ =~= old_view.drop_last());
                    lemma_total_entries_nonneg(self@);
                    assert(old_view.last().1 == map@);
                    assert(old_view.last().1.dom().len() == map.size());
                }
                if actual == expected_scope_type {
                    self.entry_count = self.entry_count - map.len();
                }
            },
            None => {},
        }
        proof {
            assert forall|i: int| 0 <= i < self.scopes@.len() implies (#[trigger] self.scopes@[i]).1.wf() by {
                assert(self.scopes@[i] == old(self).scopes@[i]);
            }
        }
        if actual != expected_scope_type {
            return Err(Error::new(ErrorKind::UnexpectedScopeType { expected: expected_scope_type, actual }));
        }
        Ok(())
    }

    /// Looks up a variable by its exact name (no nameref followed) in the scopes that
    /// `lookup_policy` admits, from the top of the stack down.
    pub fn get_by_exact_name_using_policy(&self, name: &str, lookup_policy: EnvironmentLookup) -> (r: Option<
        (EnvironmentScope, &ShellVariable),
    >)
        requires
            self.wf(),
        ensures
            match find_var(self@, name@, lookup_policy) {
                Some((sc, v)) => r matches Some((rs, rv)) && rs == sc && *rv == v,
                None => r is None,
            },
            r matches Some((_, v)) ==> v.wf(),
    {
        proof {
            self.lemma_scopes();
        }
        let mut local_count: usize = 0;
        let n: usize = self.scopes.len();
        let mut i: usize = n;
        while i > 0
            invariant
                self.wf(),
                n == self@.len(),
                i <= self@.len(),
                local_count <= self@.len() - i,
                forall|j: int| 0 <= j < self@.len() ==> var_map::all_vars_wf(#[trigger] self@[j].1),
                find_pos(self@, name@, lookup_policy) == find_pos_from(
                    self@,
                    name@,
                    lookup_policy,
                    i as int,
                    local_count as int,
                ),
            decreases i,
        {
            let scope_type = self.scopes[i - 1].0;
            if matches!(scope_type, EnvironmentScope::Local) {
                local_count = local_count + 1;
            }
            proof {
                assert(self.scopes@[i - 1].1.wf());
                assert(self@[i - 1] == (scope_type, self.scopes@[i - 1].1@));
            }
            if lookup_policy.admits(scope_type, local_count) {
                match self.scopes[i - 1].1.get(name) {
                    Some(var) => {
                        return Some((scope_type, var));
                    },
                    None => {},
                }
            }
            if lookup_policy.terminates_after(scope_type) {
                return None;
            }
            i = i - 1;
        }
        None
    }

    /// Looks up a variable by its exact name (no nameref followed) anywhere.
    pub fn get_by_exact_name(&self, name: &str) -> (r: Option<(EnvironmentScope, &ShellVariable)>)
        requires
            self.wf(),
        ensures
            match find_var(self@, name@, EnvironmentLookup::Anywhere) {
                Some((sc, v)) => r matches Some((rs, rv)) && rs == sc && *rv == v,
                None => r is None,
            },
            r matches Some((_, v)) ==> v.wf(),
    {
        self.get_by_exact_name_using_policy(name, EnvironmentLookup::Anywhere)
    }

    /// The next link of the nameref chain at `name` (see [`next_link`]).
    fn next_link(&self, name: &str, lookup_policy: EnvironmentLookup) -> (r: Option<(EnvironmentScope, String)>)
        requires
            self.wf(),
        ensures
            match next_link(self@, name@, lookup_policy) {
                Some((sc, t)) => r matches Some((rs, rt)) && rs == sc && rt@ == t,
                None => r is None,
            },
    {
        match self.get_by_exact_name_using_policy(name, lookup_policy) {
            Some((scope, var)) => {
                if !var.is_treated_as_nameref() {
                    return None;
                }
                match var.value() {
                    ShellValue::String(s) => {
                        if s.as_str().is_empty() {
                            None
                        } else {
                            Some((scope, s.clone()))
                        }
                    },
                    _ => None,
                }
            },
            None => None,
        }
    }

    /// Resolves a self-referential nameref `self_name` found in `scope` (see
    /// [`self_reference`]), blaming `blame` for a cycle.
    fn resolve_self_reference(blame: &str, self_name: &str, scope: EnvironmentScope) -> (r: Result<
        (String, ResolvedScope),
        NameRefFault,
    >)
        ensures
            match self_reference(blame@, self_name@, scope) {
                Ok((t, sc)) => r matches Ok((rt, rs)) && rt@ == t && rs == sc,
                Err(f) => r matches Err(e) && e@ == f,
            },
    {
        if matches!(scope, EnvironmentScope::Global) {
            Err(NameRefFault::circular(blame))
        } else {
            Ok((self_name.to_owned(), ResolvedScope::Global))
        }
    }

    /// Resolves the nameref chain at `name` under `lookup_policy` (see [`resolve_chain`]),
    /// returning the final target verbatim and the scope it resolves against.
    pub fn resolve_nameref_chain_using_policy(&self, name: &str, lookup_policy: EnvironmentLookup) -> (r: Result<
        (String, ResolvedScope),
        NameRefFault,
    >)
        requires
            self.wf(),
        ensures
            match resolve_chain(self@, name@, lookup_policy) {
                Ok((t, sc)) => r matches Ok((rt, rs)) && rt@ == t && rs == sc,
                Err(f) => r matches Err(e) && e@ == f,
            },
    {
        let (head_scope, first_target) = match self.next_link(name, lookup_policy) {
            Some(link) => link,
            None => {
                return Ok((name.to_owned(), ResolvedScope::Default));
            },
        };
        if text::str_eq(first_target.as_str(), name) {
            return Self::resolve_self_reference(name, name, head_scope);
        }
        let mut current: String = first_target;
        let mut visited: Vec<String> = Vec::new();
        visited.push(name.to_owned());
        proof {
            assert(strings_view(visited@) =~= seq![name@]);
        }
        loop
            invariant
                self.wf(),
                1 <= visited@.len() <= 8,
                resolve_chain(self@, name@, lookup_policy) == follow(
                    self@,
                    lookup_policy,
                    name@,
                    current@,
                    strings_view(visited@),
                ),
            decreases 8 - visited@.len(),
        {
            if contains_string(&visited, current.as_str()) {
                return Err(NameRefFault::circular(name));
            }
            let (scope, target) = match self.next_link(current.as_str(), lookup_policy) {
                Some(link) => link,
                None => {
                    return Ok((current, ResolvedScope::Default));
                },
            };
            if text::str_eq(target.as_str(), current.as_str()) {
                return Self::resolve_self_reference(name, current.as_str(), scope);
            }
            if visited.len() + 1 > MAX_NAMEREF_DEPTH {
                return Err(NameRefFault::max_depth(name, MAX_NAMEREF_DEPTH));
            }
            let ghost old_visited = visited@;
            visited.push(current);
            proof {
                assert(strings_view(visited@) =~= strings_view(old_visited).push(current@));
            }
            current = target;
        }
    }

    /// Resolves the nameref chain at `name`, looking anywhere (see [`resolve_chain`]).
    pub fn resolve_nameref_chain(&self, name: &str) -> (r: Result<(String, ResolvedScope), NameRefFault>)
        requires
            self.wf(),
        ensures
            match resolve_chain(self@, name@, EnvironmentLookup::Anywhere) {
                Ok((t, sc)) => r matches Ok((rt, rs)) && rt@ == t && rs == sc,
                Err(f) => r matches Err(e) && e@ == f,
            },
    {
        self.resolve_nameref_chain_using_policy(name, EnvironmentLookup::Anywhere)
    }

    /// Resolves a nameref chain and parses any subscript from the final target: `ref`
    /// referencing `arr[2]` resolves to base `arr` and subscript `2`. A self-referential
    /// function-local nameref resolves to itself, flagged for the global scope; a cycle or
    /// a too-deep chain is a fault blaming `name`.
    pub fn resolve_nameref(&self, name: &str) -> (r: Result<ResolvedName, NameRefFault>)
        requires
            self.wf(),
        ensures
            match resolve_chain(self@, name@, EnvironmentLookup::Anywhere) {
                Ok((t, sc)) => r matches Ok(n) && n@ == names::parsed_target(t, sc),
                Err(f) => r matches Err(e) && e@ == f,
            },
    {
        self.resolve_nameref_using_policy(name, EnvironmentLookup::Anywhere)
    }

    /// Resolves a nameref chain using `lookup_policy` for each nameref lookup, and parses
    /// any subscript from the final target.
    pub fn resolve_nameref_using_policy(&self, name: &str, lookup_policy: EnvironmentLookup) -> (r: Result<
        ResolvedName,
        NameRefFault,
    >)
        requires
            self.wf(),
        ensures
            match resolve_chain(self@, name@, lookup_policy) {
                Ok((t, sc)) => r matches Ok(n) && n@ == names::parsed_target(t, sc),
                Err(f) => r matches Err(e) && e@ == f,
            },
    {
        match self.resolve_nameref_chain_using_policy(name, lookup_policy) {
            Ok((resolved, scope)) => Ok(ResolvedName::parse_in(resolved.as_str(), scope)),
            Err(e) => Err(e),
        }
    }

    /// Resolves a nameref chain, returning the final target verbatim (no subscript
    /// parsing) and the scope it resolves against.
    pub fn resolve_nameref_unparsed(&self, name: &str) -> (r: Result<UnparsedNameRef, NameRefFault>)
        requires
            self.wf(),
        ensures
            match resolve_chain(self@, name@, EnvironmentLookup::Anywhere) {
                Ok((t, sc)) => r matches Ok(n) && n@ == (t, sc),
                Err(f) => r matches Err(e) && e@ == f,
            },
    {
        match self.resolve_nameref_chain(name) {
            Ok((resolved, scope)) => Ok(UnparsedNameRef::new(resolved.as_str(), scope)),
            Err(e) => Err(e),
        }
    }

    /// Resolves a nameref chain, returning the final target verbatim (no subscript
    /// parsing).
    pub fn resolve_nameref_to_name(&self, name: &str) -> (r: Result<String, NameRefFault>)
        requires
            self.wf(),
        ensures
            match resolve_chain(self@, name@, EnvironmentLookup::Anywhere) {
                Ok((t, _)) => r matches Ok(s) && s@ == t,
                Err(f) => r matches Err(e) && e@ == f,
            },
    {
        match self.resolve_nameref_chain(name) {
            Ok((resolved, _)) => Ok(resolved),
            Err(e) => Err(e),
        }
    }

    /// Resolves a nameref, falling back to the name itself on any fault (see
    /// [`resolve_nameref_or_self`](Self::resolve_nameref_or_self)).
    pub fn resolve_nameref_or_default(&self, name: &str) -> (r: ResolvedName)
        requires
            self.wf(),
        ensures
            match resolve_chain(self@, name@, EnvironmentLookup::Anywhere) {
                Ok((t, sc)) => r@ == names::parsed_target(t, sc),
                Err(_) => r@ == (ResolvedNameView { name: name@, subscript: None, scope: ResolvedScope::Default }),
            },
    {
        self.resolve_nameref_or_self(name)
    }

    /// Resolves a nameref, falling back to the name itself (unsubscripted, default scope)
    /// on any fault.
    pub fn resolve_nameref_or_self(&self, name: &str) -> (r: ResolvedName)
        requires
            self.wf(),
        ensures
            match resolve_chain(self@, name@, EnvironmentLookup::Anywhere) {
                Ok((t, sc)) => r@ == names::parsed_target(t, sc),
                Err(_) => r@ == (ResolvedNameView { name: name@, subscript: None, scope: ResolvedScope::Default }),
            },
    {
        match self.resolve_nameref(name) {
            Ok(r) => r,
            Err(_) => ResolvedName::unresolved(name),
        }
    }
}

impl Default for ShellEnvironment {
    fn default() -> (env: Self)
        ensures
            env.wf(),
            env@ == seq![(EnvironmentScope::Global, Map::<Seq<char>, ShellVariable>::empty())],
            !env.auto_export(),
    {
        ShellEnvironment::new()
    }
}

/// The texts of a sequence of strings.
pub open spec fn strings_view(v: Seq<String>) -> Seq<Seq<char>> {
    v.map_values(|s: String| s@)
}

/// Whether `v` holds the text `s`.
fn contains_string(v: &Vec<String>, s: &str) -> (r: bool)
    ensures
        r == strings_view(v@).contains(s@),
{
    let mut i: usize = 0;
    while i < v.len()
        invariant
            i <= v@.len(),
            forall|j: int| 0 <= j < i ==> v@[j]@ != s@,
        decreases v@.len() - i,
    {
        if text::str_eq(v[i].as_str(), s) {
            proof {
                assert(strings_view(v@)[i as int] == s@);
            }
            return true;
        }
        i = i + 1;
    }
    proof {
        if strings_view(v@).contains(s@) {
            let j = choose|j: int| 0 <= j < strings_view(v@).len() && strings_view(v@)[j] == s@;
            assert(v@[j]@ == s@);
        }
    }
    false
}

} // verus!
