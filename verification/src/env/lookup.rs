//! Variable lookup.
//!
//! `ShellEnvironment::lookup(name)` resolves namerefs (or, with `bypassing_nameref`, looks
//! the name up as it stands); `lookup_resolved(base)` looks up a name already resolved.
//! Mutable access goes through `lookup_mut_resolved(base)`.

use vstd::prelude::*;

use super::names::{opt_view, split_subscript, BaseRef, ResolvedScope};
use super::{
    find_pos, find_var, policy_for, resolve_chain, total_entries, with_var, EnvironmentLookup,
    EnvironmentScope, FaultView, ScopeView, ShellEnvironment, ShellVariableMap,
};
use crate::error::{Error, ErrorKind};
use crate::variables::{element_at, value_text, ShellValue, ShellValueUnsetType, ShellVariable, ValueView};

verus! {

/// A target split into its base name and subscript, or kept whole.
pub open spec fn base_and_subscript(t: Seq<char>) -> (Seq<char>, Option<Seq<char>>) {
    match split_subscript(t) {
        Some((b, s)) => (b, Some(s)),
        None => (t, None),
    }
}

/// A found variable, with the subscript to apply to it.
pub open spec fn with_subscript(
    found: Option<(EnvironmentScope, ShellVariable)>,
    sub: Option<Seq<char>>,
) -> Result<Option<(EnvironmentScope, ShellVariable, Option<Seq<char>>)>, FaultView> {
    match found {
        Some((s, v)) => Ok(Some((s, v, sub))),
        None => Ok(None),
    }
}

/// What a resolving lookup of `name` finds: the variable itself if it is not a nameref;
/// else the base of what its chain resolves to, with the subscript the target carries. A
/// subscripted target whose base is itself a nameref reads the element of that nameref's
/// (unsubscripted) target. A fault in either resolution is reported.
pub open spec fn resolved_lookup(scopes: Seq<ScopeView>, name: Seq<char>) -> Result<
    Option<(EnvironmentScope, ShellVariable, Option<Seq<char>>)>,
    FaultView,
> {
    match find_var(scopes, name, EnvironmentLookup::Anywhere) {
        None => Ok(None),
        Some((sc, v)) => if !v@.nameref {
            Ok(Some((sc, v, None)))
        } else {
            match resolve_chain(scopes, name, EnvironmentLookup::Anywhere) {
                Err(f) => Err(f),
                Ok((t, rs)) => {
                    let (base, sub) = base_and_subscript(t);
                    let policy = policy_for(rs, EnvironmentLookup::Anywhere);
                    let base_is_ref = match find_var(scopes, base, policy) {
                        Some((_, bv)) => bv@.nameref,
                        None => false,
                    };
                    if sub is Some && base_is_ref {
                        match resolve_chain(scopes, base, EnvironmentLookup::Anywhere) {
                            Err(f) => Err(f),
                            Ok((t2, rs2)) => if split_subscript(t2) is Some {
                                Ok(None)
                            } else {
                                with_subscript(
                                    find_var(scopes, t2, policy_for(rs2, EnvironmentLookup::Anywhere)),
                                    sub,
                                )
                            },
                        }
                    } else {
                        with_subscript(find_var(scopes, base, policy), sub)
                    }
                },
            }
        },
    }
}

/// The text a resolved variable reads as: nothing if its value is unset; the element the
/// subscript names, if any; else the value's text.
pub open spec fn resolved_text(v: ValueView, sub: Option<Seq<char>>) -> Option<Seq<char>> {
    if v is Unset {
        None
    } else {
        match sub {
            Some(idx) => element_at(v, idx),
            None => Some(value_text(v)),
        }
    }
}

/// An immutable reference to a variable resolved through the nameref chain. For a target
/// with a subscript (`arr[2]`), the variable is the base (`arr`) and the subscript is kept.
#[derive(Debug)]
pub struct ResolvedVarRef<'a> {
    scope: EnvironmentScope,
    variable: &'a ShellVariable,
    nameref_subscript: Option<String>,
}

impl<'a> ResolvedVarRef<'a> {
    /// The scope, variable and subscript.
    pub closed spec fn view(&self) -> (EnvironmentScope, ShellVariable, Option<Seq<char>>) {
        (self.scope, *self.variable, opt_view(self.nameref_subscript))
    }

    /// Makes a reference to `variable`, found in `scope`, with the given subscript.
    pub fn new(scope: EnvironmentScope, variable: &'a ShellVariable, nameref_subscript: Option<String>) -> (r: Self)
        ensures
            r@ == (scope, *variable, opt_view(nameref_subscript)),
    {
        ResolvedVarRef { scope, variable, nameref_subscript }
    }

    /// The scope in which the resolved variable was found.
    pub fn scope(&self) -> (r: EnvironmentScope)
        ensures
            r == self@.0,
    {
        self.scope
    }

    /// The base variable, for type and attribute inspection.
    pub fn base_var(&self) -> (r: &'a ShellVariable)
        ensures
            *r == self@.1,
    {
        self.variable
    }

    /// Whether the nameref resolved to a subscripted target.
    pub fn has_subscript(&self) -> (r: bool)
        ensures
            r == self@.2 is Some,
    {
        self.nameref_subscript.is_some()
    }

    /// The subscript (if any) of the resolved nameref target.
    pub fn subscript(&self) -> (r: Option<&str>)
        ensures
            match r {
                Some(s) => self@.2 == Some(s@),
                None => self@.2 is None,
            },
    {
        match &self.nameref_subscript {
            Some(s) => Some(s.as_str()),
            None => None,
        }
    }

    /// The text the variable reads as, subscript-aware (see [`resolved_text`]).
    pub fn value_str(&self) -> (r: Option<String>)
        requires
            self@.1.wf(),
        ensures
            match r {
                Some(s) => resolved_text(self@.1@.value, self@.2) == Some(s@),
                None => resolved_text(self@.1@.value, self@.2) is None,
            },
    {
        if !self.variable.value().is_set() {
            return None;
        }
        match &self.nameref_subscript {
            Some(idx) => self.variable.get_at(idx.as_str()),
            None => Some(self.variable.value_string()),
        }
    }

    /// The resolved value: for a subscripted reference, the element as a string (unset if
    /// there is none); else the text of the whole value.
    pub fn resolved_value(&self) -> (r: ShellValue)
        requires
            self@.1.wf(),
        ensures
            r.wf(),
            self@.2 is Some ==> r.view() == match element_at(self@.1@.value, self@.2->0) {
                Some(e) => ValueView::Str(e),
                None => ValueView::Unset(ShellValueUnsetType::Untyped),
            },
            self@.2 is None ==> r.view() == self@.1@.value,
    {
        match &self.nameref_subscript {
            Some(idx) => match self.variable.get_at(idx.as_str()) {
                Some(v) => ShellValue::String(v),
                None => ShellValue::Unset(ShellValueUnsetType::Untyped),
            },
            None => self.variable.value().deep_clone(),
        }
    }
}

/// Immutable lookup builder for auto-resolving nameref lookups.
pub struct VarLookup<'a> {
    env: &'a ShellEnvironment,
    name: &'a str,
}

impl<'a> VarLookup<'a> {
    /// The environment and the name looked up.
    pub closed spec fn view(&self) -> (Seq<ScopeView>, Seq<char>) {
        (self.env@, self.name@)
    }

    /// Whether the environment is well-formed.
    pub closed spec fn wf(&self) -> bool {
        self.env.wf()
    }

    /// Executes the lookup, resolving namerefs (see [`resolved_lookup`]); a nameref fault
    /// finds nothing.
    pub fn get(self) -> (r: Option<ResolvedVarRef<'a>>)
        requires
            self.wf(),
        ensures
            match resolved_lookup(self@.0, self@.1) {
                Ok(Some(found)) => r matches Some(v) && v@ == found,
                _ => r is None,
            },
            r matches Some(v) ==> v@.1.wf(),
    {
        match self.env.try_get(self.name) {
            Ok(found) => found,
            Err(_) => None,
        }
    }

    /// Switches to bypass mode: look up the variable by its literal name, anywhere.
    pub fn bypassing_nameref(self) -> (r: DirectVarLookup<'a>)
        ensures
            r@ == (self@.0, self@.1, EnvironmentLookup::Anywhere),
            r.wf() == self.wf(),
    {
        DirectVarLookup { env: self.env, name: self.name, policy: EnvironmentLookup::Anywhere }
    }
}

/// Immutable lookup builder for pre-resolved or bypassed names.
pub struct DirectVarLookup<'a> {
    env: &'a ShellEnvironment,
    name: &'a str,
    policy: EnvironmentLookup,
}

impl<'a> DirectVarLookup<'a> {
    /// The environment, the name looked up and the lookup policy.
    pub closed spec fn view(&self) -> (Seq<ScopeView>, Seq<char>, EnvironmentLookup) {
        (self.env@, self.name@, self.policy)
    }

    /// Whether the environment is well-formed.
    pub closed spec fn wf(&self) -> bool {
        self.env.wf()
    }

    /// Restricts the lookup to the scopes `policy` admits.
    pub fn in_scope(self, policy: EnvironmentLookup) -> (r: Self)
        ensures
            r@ == (self@.0, self@.1, policy),
            r.wf() == self.wf(),
    {
        DirectVarLookup { env: self.env, name: self.name, policy }
    }

    /// Executes the lookup without nameref resolution.
    pub fn get(self) -> (r: Option<ResolvedVarRef<'a>>)
        requires
            self.wf(),
        ensures
            match find_var(self@.0, self@.1, self@.2) {
                Some((sc, v)) => r matches Some(rv) && rv@ == (sc, v, None::<Seq<char>>),
                None => r is None,
            },
            r matches Some(v) ==> v@.1.wf(),
    {
        match self.env.get_by_exact_name_using_policy(self.name, self.policy) {
            Some((scope, var)) => Some(ResolvedVarRef::new(scope, var, None)),
            None => None,
        }
    }
}

/// Mutable lookup builder for pre-resolved or bypassed names.
pub struct DirectVarLookupMut<'a> {
    env: &'a mut ShellEnvironment,
    name: &'a str,
    policy: EnvironmentLookup,
}

impl<'a> DirectVarLookupMut<'a> {
    /// The environment, the name looked up and the lookup policy.
    pub closed spec fn view(&self) -> (Seq<ScopeView>, Seq<char>, EnvironmentLookup) {
        (self.env@, self.name@, self.policy)
    }

    /// Whether the environment is well-formed.
    pub closed spec fn wf(&self) -> bool {
        self.env.wf()
    }

    /// Restricts the lookup to the scopes `policy` admits.
    pub fn in_scope(self, policy: EnvironmentLookup) -> (r: Self)
        ensures
            r@ == (self@.0, self@.1, policy),
            r.wf() == self.wf(),
    {
        DirectVarLookupMut { env: self.env, name: self.name, policy }
    }
}

impl<'a> DirectVarLookupMut<'a> {
    /// Executes the lookup without nameref resolution, for mutation. The environment stays
    /// well-formed as long as the variable does.
    pub fn get(self) -> (r: Option<(EnvironmentScope, &'a mut ShellVariable)>)
        requires
            self.wf(),
        ensures
            match find_pos(self@.0, self@.1, self@.2) {
                Some(j) => r matches Some((rs, rv)) && rs == self@.0[j].0 && *rv == self@.0[j].1[self@.1],
                None => r is None,
            },
    {
        self.env.get_mut_by_exact_name_using_policy(self.name, self.policy)
    }
}

impl ShellEnvironment {
    /// Creates an immutable lookup builder for `name`, resolving namerefs by default.
    pub fn lookup<'a>(&'a self, name: &'a str) -> (r: VarLookup<'a>)
        ensures
            r@ == (self@, name@),
            r.wf() == self.wf(),
    {
        VarLookup { env: self, name }
    }

    /// Creates an immutable lookup builder for an already-resolved base name, in the
    /// scope it resolved against (the global scope, or anywhere).
    pub fn lookup_resolved<'a>(&'a self, resolved: BaseRef<'a>) -> (r: DirectVarLookup<'a>)
        ensures
            r@ == (self@, resolved.name@, policy_for(resolved.scope, EnvironmentLookup::Anywhere)),
            r.wf() == self.wf(),
    {
        DirectVarLookup {
            env: self,
            name: resolved.name,
            policy: resolved.scope.lookup_policy_or(EnvironmentLookup::Anywhere),
        }
    }

    /// Creates a mutable lookup builder for an already-resolved base name, in the scope it
    /// resolved against (the global scope, or anywhere).
    pub fn lookup_mut_resolved<'a>(&'a mut self, resolved: BaseRef<'a>) -> (r: DirectVarLookupMut<'a>)
        ensures
            r@ == (old(self)@, resolved.name@, policy_for(resolved.scope, EnvironmentLookup::Anywhere)),
            r.wf() == old(self).wf(),
    {
        let policy = resolved.scope.lookup_policy_or(EnvironmentLookup::Anywhere);
        DirectVarLookupMut { env: self, name: resolved.name, policy }
    }

    /// Looks up a variable mutably by its exact name (no nameref followed) in the scopes
    /// that `lookup_policy` admits, from the top of the stack down. The environment stays
    /// well-formed as long as the variable does.
    #[verifier::spinoff_prover]
    #[verifier::rlimit(40)]
    pub fn get_mut_by_exact_name_using_policy(&mut self, name: &str, lookup_policy: EnvironmentLookup) -> (r: Option<
        (EnvironmentScope, &mut ShellVariable),
    >)
        requires
            old(self).wf(),
        ensures
            find_pos(old(self)@, name@, lookup_policy) is None ==> r is None && *final(self) == *old(self),
            find_pos(old(self)@, name@, lookup_policy) is Some ==> r is Some,
            r matches Some((rs, rv)) ==> rs == old(self)@[find_pos(old(self)@, name@, lookup_policy)->0].0,
            r matches Some((rs, rv)) ==> *rv == old(self)@[find_pos(old(self)@, name@, lookup_policy)->0].1[name@]
                && rv.wf(),
            r matches Some((rs, rv)) ==> final(self)@ == with_var(
                old(self)@,
                find_pos(old(self)@, name@, lookup_policy)->0,
                name@,
                *final(rv),
            ),
            final(self).auto_export() == old(self).auto_export(),
            final(self).spec_entry_count() == old(self).spec_entry_count(),
            r matches Some((rs, rv)) ==> (final(rv).wf() ==> final(self).wf()),
    {
        proof {
            self.lemma_scopes();
        }
        let mut local_count: usize = 0;
        let n: usize = self.scopes.len();
        let mut i: usize = n;
        let mut found: Option<usize> = None;
        while i > 0
            invariant_except_break
                i <= self@.len(),
                local_count <= self@.len() - i,
                found is None,
                find_pos(self@, name@, lookup_policy) == super::find_pos_from(
                    self@,
                    name@,
                    lookup_policy,
                    i as int,
                    local_count as int,
                ),
            invariant
                self.wf(),
                n == self@.len(),
            ensures
                match found {
                    Some(j) => find_pos(self@, name@, lookup_policy) == Some(j as int),
                    None => find_pos(self@, name@, lookup_policy) is None,
                },
            decreases i,
        {
            let scope_type = self.scopes[i - 1].0;
            if matches!(scope_type, EnvironmentScope::Local) {
                local_count = local_count + 1;
            }
            proof {
                assert(self.scopes@[i - 1].1.wf());
                assert(self@[i - 1] == (scope_type, self.scopes@[i - 1].1@));
            }
            if lookup_policy.admits(scope_type, local_count) {
                if self.scopes[i - 1].1.get(name).is_some() {
                    found = Some(i - 1);
                    break;
                }
            }
            if lookup_policy.terminates_after(scope_type) {
                i = 0;
                break;
            }
            i = i - 1;
        }
        let j = match found {
            Some(j) => j,
            None => {
                return None;
            },
        };
        let ghost old_view = self@;
        proof {
            super::lemma_find_pos_from(self@, name@, lookup_policy, self@.len() as int, 0);
            assert(self.scopes@[j as int].1.wf());
            assert(self@[j as int] == (self.scopes@[j as int].0, self.scopes@[j as int].1@));
        }
        let scope_type = self.scopes[j].0;
        proof {
            let old_scopes = self.scopes@;
            let count = self.entry_count as int;
            assert forall|e: (EnvironmentScope, ShellVariableMap), v: ShellVariable|
                #![trigger super::scopes_wf(old_scopes.update(j as int, e), count), old_scopes[j as int].1@.insert(name@, v)]
                e.0 == old_scopes[j as int].0 && e.1.wf() && e.1@ == old_scopes[j as int].1@.insert(name@, v)
                implies super::scopes_wf(old_scopes.update(j as int, e), count) by {
                assert(e.1@.dom() =~= old_scopes[j as int].1@.dom());
                let s2 = old_scopes.update(j as int, e);
                assert(super::scopes_view(s2) =~= old_view.update(j as int, (e.0, e.1@)));
                super::mutation::lemma_total_entries_update(old_view, j as int, e.1@);
                assert forall|i: int| 0 <= i < s2.len() implies (#[trigger] s2[i]).1.wf() by {
                    if i != j {
                        assert(s2[i] == old_scopes[i]);
                    }
                }
            }
        }
        let var = self.scopes[j].1.get_mut(name).unwrap();
        Some((scope_type, var))
    }

    /// Tries to retrieve a mutable reference by exact name (no nameref followed), anywhere.
    pub fn get_mut_exact(&mut self, name: &str) -> (r: Option<(EnvironmentScope, &mut ShellVariable)>)
        requires
            old(self).wf(),
        ensures
            find_pos(old(self)@, name@, EnvironmentLookup::Anywhere) is None ==> r is None && *final(self) == *old(self),
            find_pos(old(self)@, name@, EnvironmentLookup::Anywhere) is Some ==> r is Some,
            r matches Some((rs, rv)) ==> rs == old(self)@[find_pos(old(self)@, name@, EnvironmentLookup::Anywhere)->0].0,
            r matches Some((rs, rv)) ==> *rv == old(self)@[find_pos(old(self)@, name@, EnvironmentLookup::Anywhere)->0].1[name@]
                && rv.wf(),
            r matches Some((rs, rv)) ==> final(self)@ == with_var(
                old(self)@,
                find_pos(old(self)@, name@, EnvironmentLookup::Anywhere)->0,
                name@,
                *final(rv),
            ),
            final(self).auto_export() == old(self).auto_export(),
            final(self).spec_entry_count() == old(self).spec_entry_count(),
            r matches Some((rs, rv)) ==> (final(rv).wf() ==> final(self).wf()),
    {
        self.get_mut_by_exact_name_using_policy(name, EnvironmentLookup::Anywhere)
    }

    /// Tries to retrieve a mutable reference to the variable with the given literal name
    /// (no nameref followed).
    pub fn get_mut(&mut self, name: &str) -> (r: Option<(EnvironmentScope, &mut ShellVariable)>)
        requires
            old(self).wf(),
        ensures
            find_pos(old(self)@, name@, EnvironmentLookup::Anywhere) is None ==> r is None && *final(self) == *old(self),
            find_pos(old(self)@, name@, EnvironmentLookup::Anywhere) is Some ==> r is Some,
            r matches Some((rs, rv)) ==> rs == old(self)@[find_pos(old(self)@, name@, EnvironmentLookup::Anywhere)->0].0,
            r matches Some((rs, rv)) ==> *rv == old(self)@[find_pos(old(self)@, name@, EnvironmentLookup::Anywhere)->0].1[name@]
                && rv.wf(),
            r matches Some((rs, rv)) ==> final(self)@ == with_var(
                old(self)@,
                find_pos(old(self)@, name@, EnvironmentLookup::Anywhere)->0,
                name@,
                *final(rv),
            ),
            final(self).auto_export() == old(self).auto_export(),
            final(self).spec_entry_count() == old(self).spec_entry_count(),
            r matches Some((rs, rv)) ==> (final(rv).wf() ==> final(self).wf()),
    {
        self.get_mut_by_exact_name_using_policy(name, EnvironmentLookup::Anywhere)
    }

    /// Tries to retrieve a mutable reference to a variable by its literal name under the
    /// given lookup policy.
    pub fn get_mut_using_policy(&mut self, name: &str, lookup_policy: EnvironmentLookup) -> (r: Option<
        &mut ShellVariable,
    >)
        requires
            old(self).wf(),
        ensures
            find_pos(old(self)@, name@, lookup_policy) is None ==> r is None && *final(self) == *old(self),
            find_pos(old(self)@, name@, lookup_policy) is Some ==> r is Some,
            r matches Some(rv) ==> *rv == old(self)@[find_pos(old(self)@, name@, lookup_policy)->0].1[name@]
                && rv.wf(),
            r matches Some(rv) ==> final(self)@ == with_var(
                old(self)@,
                find_pos(old(self)@, name@, lookup_policy)->0,
                name@,
                *final(rv),
            ),
            final(self).auto_export() == old(self).auto_export(),
            final(self).spec_entry_count() == old(self).spec_entry_count(),
            r matches Some(rv) ==> (final(rv).wf() ==> final(self).wf()),
    {
        match self.get_mut_by_exact_name_using_policy(name, lookup_policy) {
            Some((_, v)) => Some(v),
            None => None,
        }
    }

    /// Tries to retrieve an immutable reference by exact name without nameref resolution.
    pub fn get_exact(&self, name: &str) -> (r: Option<(EnvironmentScope, &ShellVariable)>)
        requires
            self.wf(),
        ensures
            match find_var(self@, name@, EnvironmentLookup::Anywhere) {
                Some((sc, v)) => r matches Some((rs, rv)) && rs == sc && *rv == v,
                None => r is None,
            },
    {
        self.get_by_exact_name(name)
    }

    /// Tries to retrieve an immutable reference to the variable with the given literal
    /// name (no nameref followed).
    pub fn get(&self, name: &str) -> (r: Option<(EnvironmentScope, &ShellVariable)>)
        requires
            self.wf(),
        ensures
            match find_var(self@, name@, EnvironmentLookup::Anywhere) {
                Some((sc, v)) => r matches Some((rs, rv)) && rs == sc && *rv == v,
                None => r is None,
            },
    {
        self.get_exact(name)
    }

    /// Tries to retrieve an immutable reference to a variable by its literal name under
    /// the given lookup policy.
    pub fn get_using_policy(&self, name: &str, lookup_policy: EnvironmentLookup) -> (r: Option<&ShellVariable>)
        requires
            self.wf(),
        ensures
            match find_var(self@, name@, lookup_policy) {
                Some((_, v)) => r matches Some(rv) && *rv == v,
                None => r is None,
            },
    {
        match self.get_by_exact_name_using_policy(name, lookup_policy) {
            Some((_, v)) => Some(v),
            None => None,
        }
    }

    /// Resolving lookup (see [`resolved_lookup`]), reporting a nameref fault.
    pub fn try_get(&self, name: &str) -> (r: Result<Option<ResolvedVarRef<'_>>, Error>)
        requires
            self.wf(),
        ensures
            match resolved_lookup(self@, name@) {
                Ok(Some(found)) => r matches Ok(Some(v)) && v@ == found,
                Ok(None) => r matches Ok(None),
                Err(f) => r matches Err(e) && e.spec_kind() matches ErrorKind::NameRef(nf) && nf@ == f,
            },
            r matches Ok(Some(v)) ==> v@.1.wf(),
    {
        let (scope, var) = match self.get_by_exact_name(name) {
            Some(found) => found,
            None => {
                return Ok(None);
            },
        };
        if !var.is_treated_as_nameref() {
            return Ok(Some(ResolvedVarRef::new(scope, var, None)));
        }
        let (resolved, rscope) = match self.resolve_nameref_chain(name) {
            Ok(x) => x,
            Err(f) => {
                return Err(Error::new(ErrorKind::NameRef(f)));
            },
        };
        let (base0, subscript) = super::names::parse_nameref_subscript(resolved.as_str());
        let mut base: String = base0.to_owned();
        let mut lookup_policy = rscope.lookup_policy_or(EnvironmentLookup::Anywhere);
        let subscript_owned: Option<String> = match subscript {
            Some(s) => Some(s.to_owned()),
            None => None,
        };
        if subscript_owned.is_some() {
            let base_is_ref = match self.get_by_exact_name_using_policy(base.as_str(), lookup_policy) {
                Some((_, bv)) => bv.is_treated_as_nameref(),
                None => false,
            };
            if base_is_ref {
                let (base_resolved, base_scope) = match self.resolve_nameref_chain(base.as_str()) {
                    Ok(x) => x,
                    Err(f) => {
                        return Err(Error::new(ErrorKind::NameRef(f)));
                    },
                };
                let (_, base_subscript) = super::names::parse_nameref_subscript(base_resolved.as_str());
                if base_subscript.is_some() {
                    return Ok(None);
                }
                base = base_resolved;
                lookup_policy = base_scope.lookup_policy_or(EnvironmentLookup::Anywhere);
            }
        }
        match self.get_by_exact_name_using_policy(base.as_str(), lookup_policy) {
            Some((s, v)) => Ok(Some(ResolvedVarRef::new(s, v, subscript_owned))),
            None => Ok(None),
        }
    }

    /// Resolving lookup that finds nothing on a nameref fault.
    pub fn get_resolved(&self, name: &str) -> (r: Option<ResolvedVarRef<'_>>)
        requires
            self.wf(),
        ensures
            match resolved_lookup(self@, name@) {
                Ok(Some(found)) => r matches Some(v) && v@ == found,
                _ => r is None,
            },
            r matches Some(v) ==> v@.1.wf(),
    {
        match self.try_get(name) {
            Ok(found) => found,
            Err(_) => None,
        }
    }

    /// The text the variable `name` reads as, resolving namerefs and subscripts.
    pub fn get_resolved_str(&self, name: &str) -> (r: Option<String>)
        requires
            self.wf(),
        ensures
            match resolved_lookup(self@, name@) {
                Ok(Some((_, v, sub))) => match resolved_text(v@.value, sub) {
                    Some(t) => r matches Some(s) && s@ == t,
                    None => r is None,
                },
                _ => r is None,
            },
    {
        match self.get_resolved(name) {
            Some(found) => found.value_str(),
            None => None,
        }
    }

    /// The text of the variable with the given literal name (no nameref followed).
    pub fn get_str(&self, name: &str) -> (r: Option<String>)
        requires
            self.wf(),
        ensures
            match find_var(self@, name@, EnvironmentLookup::Anywhere) {
                Some((_, v)) => r matches Some(s) && s@ == value_text(v@.value),
                None => r is None,
            },
    {
        match self.get_by_exact_name(name) {
            Some((_, v)) => Some(v.value_string()),
            None => None,
        }
    }

    /// Whether a variable of the given literal name is set (no nameref followed).
    pub fn is_set(&self, name: &str) -> (r: bool)
        requires
            self.wf(),
        ensures
            r == match find_var(self@, name@, EnvironmentLookup::Anywhere) {
                Some((_, v)) => !(v@.value is Unset),
                None => false,
            },
    {
        match self.get_by_exact_name(name) {
            Some((_, v)) => v.value().is_set(),
            None => false,
        }
    }

    /// Whether the variable `name` is set, resolving namerefs; for a subscripted target,
    /// whether the element exists.
    pub fn is_resolved_set(&self, name: &str) -> (r: bool)
        requires
            self.wf(),
        ensures
            r == match resolved_lookup(self@, name@) {
                Ok(Some((_, v, sub))) => !(v@.value is Unset) && match sub {
                    Some(idx) => element_at(v@.value, idx) is Some,
                    None => true,
                },
                _ => false,
            },
    {
        match self.get_resolved(name) {
            Some(found) => {
                let value = found.base_var().value();
                if !value.is_set() {
                    return false;
                }
                match found.subscript() {
                    Some(idx) => found.base_var().get_at(idx).is_some(),
                    None => true,
                }
            },
            None => false,
        }
    }
}


/// Where a resolving mutable lookup of `name` finds its variable: the variable itself if
/// it is not a nameref; else the base of what its chain resolves to, in the scope the
/// chain resolves against, with the subscript the target carries. A fault finds nothing.
pub open spec fn resolved_lookup_mut(scopes: Seq<ScopeView>, name: Seq<char>) -> Option<(int, Seq<char>, Option<Seq<char>>)> {
    match find_pos(scopes, name, EnvironmentLookup::Anywhere) {
        None => None,
        Some(j) => if !scopes[j].1[name]@.nameref {
            Some((j, name, None))
        } else {
            match resolve_chain(scopes, name, EnvironmentLookup::Anywhere) {
                Err(_) => None,
                Ok((t, rs)) => {
                    let (base, sub) = base_and_subscript(t);
                    match find_pos(scopes, base, policy_for(rs, EnvironmentLookup::Anywhere)) {
                        Some(k) => Some((k, base, sub)),
                        None => None,
                    }
                },
            }
        },
    }
}

/// A mutable reference to a variable resolved through the nameref chain.
#[derive(Debug)]
pub struct ResolvedVarRefMut<'a> {
    scope: EnvironmentScope,
    variable: &'a mut ShellVariable,
    nameref_subscript: Option<String>,
}

impl<'a> ResolvedVarRefMut<'a> {
    /// The scope, the variable and the subscript.
    pub closed spec fn view(&self) -> (EnvironmentScope, ShellVariable, Option<Seq<char>>) {
        (self.scope, *self.variable, opt_view(self.nameref_subscript))
    }

    /// The scope in which the resolved variable was found.
    pub fn scope(&self) -> (r: EnvironmentScope)
        ensures
            r == self@.0,
    {
        self.scope
    }

    /// The base variable, for type and attribute inspection.
    pub fn base_var(&self) -> (r: &ShellVariable)
        ensures
            *r == self@.1,
    {
        &*self.variable
    }

    /// The base variable, for attribute mutation.
    pub fn base_var_mut(&mut self) -> (r: &mut ShellVariable)
        ensures
            *r == old(self)@.1,
            final(self)@ == (old(self)@.0, *final(r), old(self)@.2),
    {
        &mut *self.variable
    }

    /// The text the variable reads as, subscript-aware (see [`resolved_text`]).
    pub fn value_str(&self) -> (r: Option<String>)
        requires
            self@.1.wf(),
        ensures
            match r {
                Some(s) => resolved_text(self@.1@.value, self@.2) == Some(s@),
                None => resolved_text(self@.1@.value, self@.2) is None,
            },
    {
        if !self.variable.value().is_set() {
            return None;
        }
        match &self.nameref_subscript {
            Some(idx) => self.variable.get_at(idx.as_str()),
            None => Some(self.variable.value_string()),
        }
    }

    /// Whether the nameref resolved to a subscripted target.
    pub fn has_subscript(&self) -> (r: bool)
        ensures
            r == self@.2 is Some,
    {
        self.nameref_subscript.is_some()
    }
}

/// Mutable lookup builder for auto-resolving nameref lookups.
pub struct VarLookupMut<'a> {
    env: &'a mut ShellEnvironment,
    name: &'a str,
}

impl<'a> VarLookupMut<'a> {
    /// The environment and the name looked up.
    pub closed spec fn view(&self) -> (Seq<ScopeView>, Seq<char>) {
        (self.env@, self.name@)
    }

    /// Whether the environment is well-formed.
    pub closed spec fn wf(&self) -> bool {
        self.env.wf()
    }

    /// Executes the lookup, resolving namerefs (see [`resolved_lookup_mut`]).
    pub fn get(self) -> (r: Option<ResolvedVarRefMut<'a>>)
        requires
            self.wf(),
        ensures
            match resolved_lookup_mut(self@.0, self@.1) {
                Some((k, base, sub)) => r matches Some(v) && v@ == (self@.0[k].0, self@.0[k].1[base], sub),
                None => r is None,
            },
    {
        let env = self.env;
        let name = self.name;
        let (is_ref, base, subscript, policy) = match env.get_by_exact_name(name) {
            None => {
                return None;
            },
            Some((_, var)) => {
                if !var.is_treated_as_nameref() {
                    (false, name.to_owned(), None, EnvironmentLookup::Anywhere)
                } else {
                    match env.resolve_nameref_chain(name) {
                        Err(_) => {
                            return None;
                        },
                        Ok((resolved, rs)) => {
                            let (b, sub) = super::names::parse_nameref_subscript(resolved.as_str());
                            let sub_owned: Option<String> = match sub {
                                Some(s) => Some(s.to_owned()),
                                None => None,
                            };
                            (true, b.to_owned(), sub_owned, rs.lookup_policy_or(EnvironmentLookup::Anywhere))
                        },
                    }
                }
            },
        };
        proof {
            super::lemma_find_pos_from(env@, name@, EnvironmentLookup::Anywhere, env@.len() as int, 0);
        }
        match env.get_mut_by_exact_name_using_policy(base.as_str(), policy) {
            Some((scope, var)) => Some(ResolvedVarRefMut { scope, variable: var, nameref_subscript: subscript }),
            None => None,
        }
    }

    /// Switches to bypass mode: look up the variable by its literal name, anywhere.
    pub fn bypassing_nameref(self) -> (r: DirectVarLookupMut<'a>)
        ensures
            r@ == (self@.0, self@.1, EnvironmentLookup::Anywhere),
            r.wf() == self.wf(),
    {
        DirectVarLookupMut { env: self.env, name: self.name, policy: EnvironmentLookup::Anywhere }
    }
}

impl ShellEnvironment {
    /// Creates a mutable lookup builder for `name`, resolving namerefs by default.
    pub fn lookup_mut<'a>(&'a mut self, name: &'a str) -> (r: VarLookupMut<'a>)
        ensures
            r@ == (old(self)@, name@),
            r.wf() == old(self).wf(),
    {
        VarLookupMut { env: self, name }
    }
}

} // verus!
