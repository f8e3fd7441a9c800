//! Mutation of the environment: adding, updating and unsetting variables.

use vstd::prelude::*;

use super::names::{
    is_valid_name, is_valid_nameref_target, opt_view, parsed_target, NameRefStrategy, ResolvedNameView,
};
use super::{
    find_pos, find_var, resolve_chain, total_entries, with_var, EnvironmentLookup, EnvironmentScope,
    FaultView, NameRef, ResolvedName, ResolvedScope, ScopeView, ShellEnvironment, ShellVariableMap,
};
use crate::error::{Error, ErrorKind};
use crate::variables::{
    value_after_assign, value_after_assign_at, value_after_unset_at, LiteralView, ShellValue,
    ShellValueLiteral, ShellValueUnsetType, ShellVariable, ValueView, VarView,
};

verus! {

/// The position of the top-most scope of type `t` among the scopes below `i`.
pub open spec fn topmost_of(scopes: Seq<ScopeView>, t: EnvironmentScope, i: int) -> Option<int>
    decreases i,
{
    if i <= 0 {
        None
    } else if scopes[i - 1].0 == t {
        Some(i - 1)
    } else {
        topmost_of(scopes, t, i - 1)
    }
}

/// The variable as stored: exported if the environment exports on modification.
pub open spec fn stored_var(var: ShellVariable, auto_export: bool) -> ShellVariable {
    if auto_export {
        var.exported_copy()
    } else {
        var
    }
}

/// A scope found by [`topmost_of`] lies in the stack and has the type asked for.
pub proof fn lemma_topmost_of(scopes: Seq<ScopeView>, t: EnvironmentScope, i: int)
    requires
        i <= scopes.len(),
    ensures
        topmost_of(scopes, t, i) matches Some(j) ==> 0 <= j < i && scopes[j].0 == t,
    decreases i,
{
    if i > 0 {
        lemma_topmost_of(scopes, t, i - 1);
    }
}

/// A legal name has no `[`.
pub proof fn lemma_valid_name_no_bracket(s: Seq<char>)
    requires
        is_valid_name(s),
    ensures
        !s.contains('['),
{
    if s.contains('[') {
        let j = choose|j: int| 0 <= j < s.len() && s[j] == '[';
        if j > 0 {
            assert(super::names::is_name_char(s[j]));
        }
    }
}

/// Replacing one scope's variables.
pub proof fn lemma_total_entries_update(scopes: Seq<ScopeView>, i: int, m: Map<Seq<char>, ShellVariable>)
    requires
        0 <= i < scopes.len(),
    ensures
        total_entries(scopes.update(i, (scopes[i].0, m))) == total_entries(scopes) - scopes[i].1.dom().len()
            + m.dom().len(),
    decreases scopes.len(),
{
    let t = scopes.update(i, (scopes[i].0, m));
    if i < scopes.len() - 1 {
        assert(t.drop_last() == scopes.drop_last().update(i, (scopes[i].0, m)));
        lemma_total_entries_update(scopes.drop_last(), i, m);
    } else {
        assert(t.drop_last() == scopes.drop_last());
    }
}

impl ShellEnvironment {
    /// Adds a variable to the environment in the top-most scope of the given type,
    /// replacing any variable of that name there (and exporting it if the environment
    /// exports on modification). A name that is not a legal variable name, or a scope
    /// type not on the stack, is reported and nothing changes.
    pub fn add(&mut self, name: &str, var: ShellVariable, target_scope: EnvironmentScope) -> (r: Result<(), Error>)
        requires
            old(self).wf(),
            var.wf(),
            old(self).spec_entry_count() < usize::MAX,
        ensures
            final(self).wf(),
            final(self).auto_export() == old(self).auto_export(),
            !is_valid_name(name@) ==> (r matches Err(e) && e.spec_kind() matches ErrorKind::InvalidVariableName(n)
                && n@ == name@ && final(self)@ == old(self)@),
            is_valid_name(name@) ==> match topmost_of(old(self)@, target_scope, old(self)@.len() as int) {
                Some(i) => r is Ok && final(self)@ == with_var(
                    old(self)@,
                    i,
                    name@,
                    stored_var(var, old(self).auto_export()),
                ),
                None => r matches Err(e) && e.spec_kind() == ErrorKind::MissingScopeForNewVariable
                    && final(self)@ == old(self)@,
            },
    {
        if !super::valid_variable_name(name) {
            return Err(Error::new(ErrorKind::InvalidVariableName(name.to_owned())));
        }
        proof {
            lemma_valid_name_no_bracket(name@);
        }
        let ghost var0 = var;
        let mut var = var;
        if self.export_variables_on_modification {
            var.export();
        }
        let mut i: usize = self.scopes.len();
        while i > 0
            invariant
                i <= self@.len(),
                self@.len() == self.scopes@.len(),
                topmost_of(self@, target_scope, self@.len() as int) == topmost_of(self@, target_scope, i as int),
            ensures
                i > 0 ==> self@[i - 1].0 == target_scope,
            decreases i,
        {
            if self.scopes[i - 1].0 == target_scope {
                proof {
                    assert(self@[i - 1].0 == self.scopes@[i - 1].0);
                }
                break;
            }
            i = i - 1;
        }
        if i == 0 {
            return Err(Error::new(ErrorKind::MissingScopeForNewVariable));
        }
        let idx = i - 1;
        let ghost old_view = self@;
        proof {
            self.lemma_scopes();
            assert(self.scopes@[idx as int].1.wf());
        }
        let (scope_type, mut map) = self.scopes.remove(idx);
        let prev = map.set(name, var);
        proof {
            map.lemma_size();
        }
        self.scopes.insert(idx, (scope_type, map));
        if prev.is_none() {
            self.entry_count = self.entry_count + 1;
        }
        proof {
            assert(var == stored_var(var0, old(self).auto_export()));
            assert(self@ =~= with_var(old_view, idx as int, name@, var));
            lemma_total_entries_update(old_view, idx as int, map@);
            assert forall|j: int| 0 <= j < self.scopes@.len() implies (#[trigger] self.scopes@[j]).1.wf() by {
                if j != idx {
                    assert(self.scopes@[j] == old(self).scopes@[j]);
                }
            }
        }
        Ok(())
    }

    /// Sets a global variable in the environment (see [`add`](Self::add)).
    pub fn set_global(&mut self, name: &str, var: ShellVariable) -> (r: Result<(), Error>)
        requires
            old(self).wf(),
            var.wf(),
            old(self).spec_entry_count() < usize::MAX,
        ensures
            final(self).wf(),
            final(self).auto_export() == old(self).auto_export(),
            !is_valid_name(name@) ==> (r matches Err(e) && e.spec_kind() matches ErrorKind::InvalidVariableName(n)
                && n@ == name@ && final(self)@ == old(self)@),
            is_valid_name(name@) ==> match topmost_of(old(self)@, EnvironmentScope::Global, old(self)@.len() as int) {
                Some(i) => r is Ok && final(self)@ == with_var(
                    old(self)@,
                    i,
                    name@,
                    stored_var(var, old(self).auto_export()),
                ),
                None => r matches Err(e) && e.spec_kind() == ErrorKind::MissingScopeForNewVariable
                    && final(self)@ == old(self)@,
            },
    {
        self.add(name, var, EnvironmentScope::Global)
    }
}

/// The model of a scope: its type and its variables' models by name.
pub type ScopeModel = (EnvironmentScope, Map<Seq<char>, VarView>);

/// The model of the scopes: every variable taken by its model.
pub open spec fn model_of(scopes: Seq<ScopeView>) -> Seq<ScopeModel> {
    scopes.map_values(|p: ScopeView| (p.0, p.1.map_values(|v: ShellVariable| v@)))
}

/// The model after the variable model `v` is stored under `name` in scope `i`.
pub open spec fn with_model_var(ms: Seq<ScopeModel>, i: int, name: Seq<char>, v: VarView) -> Seq<ScopeModel> {
    ms.update(i, (ms[i].0, ms[i].1.insert(name, v)))
}

/// Storing a variable stores its model.
pub proof fn lemma_model_with_var(scopes: Seq<ScopeView>, i: int, name: Seq<char>, v: ShellVariable)
    requires
        0 <= i < scopes.len(),
    ensures
        model_of(with_var(scopes, i, name, v)) == with_model_var(model_of(scopes), i, name, v@),
{
    let a = model_of(with_var(scopes, i, name, v));
    let b = with_model_var(model_of(scopes), i, name, v@);
    assert forall|k: int| 0 <= k < a.len() implies a[k] == b[k] by {
        if k == i {
            assert(a[k].1 =~= b[k].1);
        }
    }
    assert(a =~= b);
}

/// The ways a write can fail.
pub enum WriteError {
    /// The nameref chain could not be resolved.
    Fault(FaultView),
    /// The name (or a nameref's new target) is not legal.
    InvalidName(Seq<char>),
    /// The variable is readonly.
    Readonly,
    /// A subscript names no element.
    BadSubscript(Seq<char>),
    /// No scope of the type to create the variable in.
    MissingScope,
    /// A subscripted target was given an array, or another subscript.
    Subscripted(Seq<char>, Seq<char>),
    /// A list was assigned to an array element.
    ListToMember,
}

/// Whether `e` is the error `w` describes.
pub open spec fn error_is(e: Error, w: WriteError) -> bool {
    match w {
        WriteError::Fault(f) => e.spec_kind() matches ErrorKind::NameRef(nf) && nf@ == f,
        WriteError::InvalidName(n) => e.spec_kind() matches ErrorKind::InvalidVariableName(s) && s@ == n,
        WriteError::Readonly => e.spec_kind() == ErrorKind::ReadonlyVariable,
        WriteError::BadSubscript(k) => e.spec_kind() matches ErrorKind::BadArraySubscript(b) && b@ == k,
        WriteError::MissingScope => e.spec_kind() == ErrorKind::MissingScopeForNewVariable,
        WriteError::Subscripted(n, sub) => e.spec_kind() matches ErrorKind::SubscriptedNameRefTarget {
            name,
            subscript,
        } && name@ == n && subscript@ == sub,
        WriteError::ListToMember => e.spec_kind() == ErrorKind::AssigningListToArrayMember,
    }
}

/// The model of a [`NameRef`].
pub enum NameRefView {
    /// Follow chains from this name.
    Resolve(Seq<char>),
    /// Already resolved.
    PreResolved(ResolvedNameView),
    /// This variable itself.
    Bypass(Seq<char>),
}

/// The model of a name reference.
pub open spec fn nameref_view(n: NameRef) -> NameRefView {
    match n.0 {
        NameRefStrategy::Resolve(s) => NameRefView::Resolve(s@),
        NameRefStrategy::PreResolved(r) => NameRefView::PreResolved(r@),
        NameRefStrategy::Bypass(s) => NameRefView::Bypass(s@),
    }
}

/// What a name reference designates before validation: a name that is a nameref (by
/// its flag) is resolved; any other is parsed for a subscript as it stands.
pub open spec fn designated(scopes: Seq<ScopeView>, n: NameRefView) -> Result<ResolvedNameView, FaultView> {
    match n {
        NameRefView::Resolve(s) => {
            let is_ref = match find_var(scopes, s, EnvironmentLookup::Anywhere) {
                Some((_, v)) => v@.nameref,
                None => false,
            };
            if is_ref {
                match resolve_chain(scopes, s, EnvironmentLookup::Anywhere) {
                    Ok((t, sc)) => Ok(parsed_target(t, sc)),
                    Err(f) => Err(f),
                }
            } else {
                Ok(parsed_target(s, ResolvedScope::Default))
            }
        },
        NameRefView::PreResolved(r) => Ok(r),
        NameRefView::Bypass(s) => Ok(ResolvedNameView { name: s, subscript: None, scope: ResolvedScope::Default }),
    }
}

/// The validated target of a write: what the reference designates, whose base must be a
/// legal name.
pub open spec fn write_target(scopes: Seq<ScopeView>, n: NameRefView) -> Result<ResolvedNameView, WriteError> {
    match designated(scopes, n) {
        Err(f) => Err(WriteError::Fault(f)),
        Ok(r) => if is_valid_name(r.name) {
            Ok(r)
        } else {
            Err(WriteError::InvalidName(r.name))
        },
    }
}

/// Whether scope `j` is the top-most local scope.
pub open spec fn is_current_local(scopes: Seq<ScopeView>, j: int) -> bool {
    scopes[j].0 == EnvironmentScope::Local && forall|k: int| j < k < scopes.len() ==> scopes[k].0
        != EnvironmentScope::Local
}

/// The outcome of unsetting the variable `name` (taken literally): the top-most variable
/// of that name goes, unless it is readonly; in the top-most local scope it is replaced by
/// an unset placeholder, so the local still hides outer variables. Gives the scopes after
/// and the variable removed, if any.
pub open spec fn unset_raw_outcome(scopes: Seq<ScopeView>, name: Seq<char>) -> Result<
    (Seq<ScopeView>, Option<ShellVariable>),
    WriteError,
> {
    match find_pos(scopes, name, EnvironmentLookup::Anywhere) {
        None => Ok((scopes, None)),
        Some(j) => {
            let v = scopes[j].1[name];
            if v@.readonly {
                Err(WriteError::Readonly)
            } else if is_current_local(scopes, j) {
                Ok((with_var(scopes, j, name, ShellVariable::unset_placeholder()), Some(v)))
            } else {
                Ok((scopes.update(j, (scopes[j].0, scopes[j].1.remove(name))), Some(v)))
            }
        },
    }
}

/// A validated write target.
struct WriteTarget {
    base: String,
    subscript: Option<String>,
    scope: ResolvedScope,
}

impl ShellEnvironment {
    /// Resolves a name reference to a validated write target (see [`write_target`]).
    fn resolve_write_target(&self, name: NameRef) -> (r: Result<WriteTarget, Error>)
        requires
            self.wf(),
        ensures
            match write_target(self@, nameref_view(name)) {
                Ok(t) => r matches Ok(w) && w.base@ == t.name && opt_view(w.subscript) == t.subscript
                    && w.scope == t.scope,
                Err(e) => r matches Err(re) && error_is(re, e),
            },
    {
        let (base, subscript, scope) = match name.0 {
            NameRefStrategy::Resolve(s) => {
                let is_ref = match self.get_by_exact_name(s.as_str()) {
                    Some((_, v)) => v.is_treated_as_nameref(),
                    None => false,
                };
                let resolved = if is_ref {
                    match self.resolve_nameref(s.as_str()) {
                        Ok(r) => r,
                        Err(f) => {
                            return Err(Error::new(ErrorKind::NameRef(f)));
                        },
                    }
                } else {
                    ResolvedName::parse(s)
                };
                resolved.into_parts()
            },
            NameRefStrategy::PreResolved(r) => r.into_parts(),
            NameRefStrategy::Bypass(s) => (s, None, ResolvedScope::Default),
        };
        if !super::valid_variable_name(base.as_str()) {
            return Err(Error::new(ErrorKind::InvalidVariableName(base)));
        }
        Ok(WriteTarget { base, subscript, scope })
    }

    /// Unsets the variable `name` taken literally (see [`unset_raw_outcome`]).
    fn unset_raw(&mut self, name: &str) -> (r: Result<Option<ShellVariable>, Error>)
        requires
            old(self).wf(),
        ensures
            final(self).wf(),
            final(self).auto_export() == old(self).auto_export(),
            match unset_raw_outcome(old(self)@, name@) {
                Ok((after, removed)) => r == Ok::<Option<ShellVariable>, Error>(removed) && final(self)@ == after,
                Err(e) => r matches Err(re) && error_is(re, e) && final(self)@ == old(self)@,
            },
    {
        proof {
            self.lemma_scopes();
        }
        let n: usize = self.scopes.len();
        let mut i: usize = n;
        let mut local_count: usize = 0;
        while i > 0
            invariant
                self.wf(),
                *self == *old(self),
                n == self@.len(),
                i <= n,
                local_count <= n - i,
                local_count == 0 <==> forall|k: int| i <= k < n ==> self@[k].0 != EnvironmentScope::Local,
                find_pos(self@, name@, EnvironmentLookup::Anywhere) == super::find_pos_from(
                    self@,
                    name@,
                    EnvironmentLookup::Anywhere,
                    i as int,
                    local_count as int,
                ),
                forall|j: int| 0 <= j < self@.len() ==> super::var_map::all_vars_wf(#[trigger] self@[j].1),
            decreases i,
        {
            let scope_type = self.scopes[i - 1].0;
            if matches!(scope_type, EnvironmentScope::Local) {
                local_count = local_count + 1;
            }
            proof {
                assert(self.scopes@[i - 1].1.wf());
                assert(self@[i - 1] == (scope_type, self.scopes@[i - 1].1@));
            }
            let found = match self.scopes[i - 1].1.get(name) {
                Some(var) => Some(var.is_readonly()),
                None => None,
            };
            match found {
                Some(true) => {
                    return Err(Error::new(ErrorKind::ReadonlyVariable));
                },
                Some(false) => {
                    let j = i - 1;
                    let ghost old_view = self@;
                    let ghost old_scopes = self.scopes@;
                    proof {
                        self.lemma_scopes();
                    }
                    let (st, mut map) = self.scopes.remove(j);
                    if matches!(st, EnvironmentScope::Local) && local_count == 1 {
                        let mut removed = ShellVariable::new_unset();
                        match map.get_mut(name) {
                            Some(slot) => {
                                std::mem::swap(slot, &mut removed);
                            },
                            None => {},
                        }
                        self.scopes.insert(j, (st, map));
                        proof {
                            ShellVariable::lemma_unset_placeholder();
                            map.lemma_size();
                            assert(map@ =~= old_view[j as int].1.insert(name@, ShellVariable::unset_placeholder()));
                            assert(self@ =~= with_var(old_view, j as int, name@, ShellVariable::unset_placeholder()));
                            lemma_total_entries_update(old_view, j as int, map@);
                            assert(map@.dom() =~= old_view[j as int].1.dom());
                            assert forall|k: int| 0 <= k < self.scopes@.len() implies (#[trigger] self.scopes@[k]).1.wf() by {
                                if k != j {
                                    assert(self.scopes@[k] == old_scopes[k]);
                                }
                            }
                        }
                        return Ok(Some(removed));
                    } else {
                        let removed = map.unset(name);
                        self.scopes.insert(j, (st, map));
                        proof {
                            map.lemma_size();
                            assert(self@ =~= old_view.update(j as int, (st, old_view[j as int].1.remove(name@))));
                            lemma_total_entries_update(old_view, j as int, map@);
                            super::lemma_total_entries_nonneg(self@);
                            assert forall|k: int| 0 <= k < self.scopes@.len() implies (#[trigger] self.scopes@[k]).1.wf() by {
                                if k != j {
                                    assert(self.scopes@[k] == old_scopes[k]);
                                }
                            }
                        }
                        self.entry_count = self.entry_count - 1;
                        return Ok(removed);
                    }
                },
                None => {},
            }
            i = i - 1;
        }
        Ok(None)
    }

    /// Unsets a variable. A name to resolve follows nameref chains (falling back to the
    /// name itself if the chain or its target is faulty); a pre-resolved name is used as
    /// it is; a bypassed name is the variable itself. A target with a subscript unsets only
    /// that element of the variable found by its base name. Returns the variable removed,
    /// if a whole variable was (see [`unset_outcome`]).
    pub fn unset(&mut self, name: NameRef) -> (r: Result<Option<ShellVariable>, Error>)
        requires
            old(self).wf(),
        ensures
            final(self).wf(),
            final(self).auto_export() == old(self).auto_export(),
            match unset_outcome(old(self)@, nameref_view(name)) {
                Ok((after, removed)) => r == Ok::<Option<ShellVariable>, Error>(removed) && model_of(
                    final(self)@,
                ) == after,
                Err(e) => r matches Err(re) && error_is(re, e) && model_of(final(self)@) == model_of(
                    old(self)@,
                ),
            },
    {
        let target = match name.0 {
            NameRefStrategy::Resolve(s) => {
                let attempt = NameRef::resolve(s.as_str());
                match self.resolve_write_target(attempt) {
                    Ok(t) => t,
                    Err(_) => {
                        let r = self.unset_raw(s.as_str());
                        return r;
                    },
                }
            },
            other => match self.resolve_write_target(NameRef(other)) {
                Ok(t) => t,
                Err(e) => {
                    return Err(e);
                },
            },
        };
        match target.subscript {
            Some(idx) => {
                let ghost old_view = self@;
                let ghost pos = find_pos(old_view, target.base@, EnvironmentLookup::Anywhere);
                let ghost mut fv = ShellVariable::unset_placeholder();
                let mut failure: Option<Error> = None;
                match self.get_mut_by_exact_name_using_policy(target.base.as_str(), EnvironmentLookup::Anywhere) {
                    Some((_, var)) => {
                        match var.unset_index(idx.as_str()) {
                            Ok(_) => {},
                            Err(e) => {
                                failure = Some(e);
                            },
                        }
                        proof {
                            fv = *var;
                        }
                    },
                    None => {},
                }
                proof {
                    super::lemma_find_pos_from(old_view, target.base@, EnvironmentLookup::Anywhere, old_view.len() as int, 0);
                    if pos is Some {
                        let j = pos->0;
                        lemma_model_with_var(old_view, j, target.base@, fv);
                        let mm = model_of(old_view)[j].1;
                        assert(mm.insert(target.base@, old_view[j].1[target.base@]@) =~= mm);
                        assert(model_of(old_view) =~= with_model_var(
                            model_of(old_view),
                            pos->0,
                            target.base@,
                            old_view[pos->0].1[target.base@]@,
                        ));
                    }
                }
                match failure {
                    Some(e) => Err(e),
                    None => Ok(None),
                }
            },
            None => self.unset_raw(target.base.as_str()),
        }
    }
}

/// The model of the scopes and the variable removed after an unset by the literal name
/// `name` (see [`unset_raw_outcome`]).
pub open spec fn unset_raw_model(scopes: Seq<ScopeView>, name: Seq<char>) -> Result<
    (Seq<ScopeModel>, Option<ShellVariable>),
    WriteError,
> {
    match unset_raw_outcome(scopes, name) {
        Ok((after, removed)) => Ok((model_of(after), removed)),
        Err(e) => Err(e),
    }
}

/// The outcome of [`ShellEnvironment::unset`]: the model of the scopes after, and the
/// variable removed, if a whole variable was.
pub open spec fn unset_outcome(scopes: Seq<ScopeView>, n: NameRefView) -> Result<
    (Seq<ScopeModel>, Option<ShellVariable>),
    WriteError,
> {
    match write_target(scopes, n) {
        Err(e) => match n {
            NameRefView::Resolve(s) => unset_raw_model(scopes, s),
            _ => Err(e),
        },
        Ok(t) => match t.subscript {
            Some(idx) => match find_pos(scopes, t.name, EnvironmentLookup::Anywhere) {
                None => Ok((model_of(scopes), None)),
                Some(j) => {
                    let v = scopes[j].1[t.name];
                    if v@.readonly {
                        Err(WriteError::Readonly)
                    } else {
                        Ok((
                            with_model_var(
                                model_of(scopes),
                                j,
                                t.name,
                                VarView { value: value_after_unset_at(v@.value, idx).0, ..v@ },
                            ),
                            None,
                        ))
                    }
                },
            },
            None => unset_raw_model(scopes, t.name),
        },
    }
}

/// Attributes to give a variable right after it is written (none are taken away).
#[derive(Clone, Copy, Debug, PartialEq, Eq, Structural)]
pub struct VarUpdate {
    /// Mark the variable exported.
    pub export: bool,
    /// Mark the variable readonly.
    pub readonly: bool,
    /// Treat the variable as a name reference.
    pub nameref: bool,
}

impl VarUpdate {
    /// No attribute change.
    pub fn none() -> (u: Self)
        ensures
            u == (VarUpdate { export: false, readonly: false, nameref: false }),
    {
        VarUpdate { export: false, readonly: false, nameref: false }
    }

    /// Gives the variable the attributes.
    pub fn apply(&self, var: &mut ShellVariable)
        ensures
            final(var)@ == updated_attrs(old(var)@, *self),
            final(var).wf() == old(var).wf(),
    {
        if self.export {
            var.export();
        }
        if self.readonly {
            var.set_readonly();
        }
        if self.nameref {
            var.treat_as_nameref();
        }
    }
}

/// A variable's model after it is given the attributes of `u`.
pub open spec fn updated_attrs(v: VarView, u: VarUpdate) -> VarView {
    VarView {
        exported: v.exported || u.export,
        readonly: v.readonly || u.readonly,
        nameref: v.nameref || u.nameref,
        ..v
    }
}

/// A variable's model after it is assigned the value `nv`, exported if the environment
/// exports on modification (`auto`), and given the attributes of `u`.
pub open spec fn updated(v: VarView, nv: ValueView, auto: bool, u: VarUpdate) -> VarView {
    updated_attrs(VarView { value: nv, exported: v.exported || auto, ..v }, u)
}

/// The model of a fresh, unset variable.
pub open spec fn fresh_var() -> VarView {
    VarView { value: ValueView::Unset(ShellValueUnsetType::Untyped), exported: false, readonly: false, nameref: false }
}

/// The outcome of assigning the literal `lit` to the variable `name`: the variable that
/// `policy` finds is assigned in place (a nameref must be given a valid target, and a
/// readonly one is refused); with none found, a fresh variable is assigned and added to the
/// top-most scope of type `creating`. Gives the model of the scopes after.
pub open spec fn assign_outcome(
    scopes: Seq<ScopeView>,
    auto: bool,
    name: Seq<char>,
    lit: LiteralView,
    u: VarUpdate,
    policy: EnvironmentLookup,
    creating: EnvironmentScope,
) -> Result<Seq<ScopeModel>, WriteError> {
    match find_pos(scopes, name, policy) {
        Some(j) => {
            let v = scopes[j].1[name]@;
            if v.nameref && (lit matches LiteralView::Scalar(t) && !is_valid_nameref_target(t)) {
                Err(WriteError::InvalidName(lit->Scalar_0))
            } else if v.readonly {
                Err(WriteError::Readonly)
            } else {
                match value_after_assign(v.value, lit) {
                    Err(k) => Err(WriteError::BadSubscript(k)),
                    Ok(nv) => Ok(with_model_var(model_of(scopes), j, name, updated(v, nv, auto, u))),
                }
            }
        },
        None => match value_after_assign(fresh_var().value, lit) {
            Err(k) => Err(WriteError::BadSubscript(k)),
            Ok(nv) => match topmost_of(scopes, creating, scopes.len() as int) {
                None => Err(WriteError::MissingScope),
                Some(i) => Ok(with_model_var(model_of(scopes), i, name, updated(fresh_var(), nv, auto, u))),
            },
        },
    }
}

/// The outcome of storing `value` at `index` of the variable `name`: the variable that
/// `policy` finds is updated in place (a readonly one is refused); with none found, a fresh
/// indexed array holding the element is added to the top-most scope of type `creating`
/// (exported if the environment exports on modification).
pub open spec fn assign_at_outcome(
    scopes: Seq<ScopeView>,
    auto: bool,
    name: Seq<char>,
    index: Seq<char>,
    value: Seq<char>,
    u: VarUpdate,
    policy: EnvironmentLookup,
    creating: EnvironmentScope,
) -> Result<Seq<ScopeModel>, WriteError> {
    match find_pos(scopes, name, policy) {
        Some(j) => {
            let v = scopes[j].1[name]@;
            if v.readonly {
                Err(WriteError::Readonly)
            } else {
                match value_after_assign_at(v.value, index, value) {
                    None => Err(WriteError::BadSubscript(index)),
                    Some(nv) => Ok(with_model_var(model_of(scopes), j, name, updated(v, nv, false, u))),
                }
            }
        },
        None => match value_after_assign(fresh_var().value, LiteralView::Array(seq![(Some(index), value)])) {
            Err(k) => Err(WriteError::BadSubscript(k)),
            Ok(nv) => match topmost_of(scopes, creating, scopes.len() as int) {
                None => Err(WriteError::MissingScope),
                Some(i) => Ok(with_model_var(model_of(scopes), i, name, updated(fresh_var(), nv, auto, u))),
            },
        },
    }
}

/// The outcome of a write through the name reference `n` of the literal `lit`: the target
/// is resolved and validated; a self-referential nameref forces the global scope; a
/// subscripted target stores a scalar at its element and refuses an array.
pub open spec fn write_outcome(
    scopes: Seq<ScopeView>,
    auto: bool,
    n: NameRefView,
    lit: LiteralView,
    u: VarUpdate,
    policy: EnvironmentLookup,
    creating: EnvironmentScope,
) -> Result<Seq<ScopeModel>, WriteError> {
    match write_target(scopes, n) {
        Err(e) => Err(e),
        Ok(t) => {
            let p = super::policy_for(t.scope, policy);
            let c = super::creation_scope_for(t.scope, creating);
            match t.subscript {
                Some(idx) => match lit {
                    LiteralView::Scalar(s) => assign_at_outcome(scopes, auto, t.name, idx, s, u, p, c),
                    LiteralView::Array(_) => Err(WriteError::Subscripted(t.name, idx)),
                },
                None => assign_outcome(scopes, auto, t.name, lit, u, p, c),
            }
        },
    }
}

/// The outcome of a write through the name reference `n` of `value` at `index`: the
/// target must carry no subscript of its own.
pub open spec fn write_at_outcome(
    scopes: Seq<ScopeView>,
    auto: bool,
    n: NameRefView,
    index: Seq<char>,
    value: Seq<char>,
    u: VarUpdate,
    policy: EnvironmentLookup,
    creating: EnvironmentScope,
) -> Result<Seq<ScopeModel>, WriteError> {
    match write_target(scopes, n) {
        Err(e) => Err(e),
        Ok(t) => match t.subscript {
            Some(sub) => Err(WriteError::Subscripted(t.name, sub)),
            None => assign_at_outcome(
                scopes,
                auto,
                t.name,
                index,
                value,
                u,
                super::policy_for(t.scope, policy),
                super::creation_scope_for(t.scope, creating),
            ),
        },
    }
}

/// Storing a variable whose model is unchanged leaves the model unchanged.
proof fn lemma_model_same(scopes: Seq<ScopeView>, j: int, name: Seq<char>)
    requires
        0 <= j < scopes.len(),
        scopes[j].1.contains_key(name),
    ensures
        with_model_var(model_of(scopes), j, name, scopes[j].1[name]@) == model_of(scopes),
{
    let mm = model_of(scopes)[j].1;
    assert(mm.insert(name, scopes[j].1[name]@) =~= mm);
    assert(with_model_var(model_of(scopes), j, name, scopes[j].1[name]@) =~= model_of(scopes));
}

/// The model of the scopes after `add` stores a variable.
proof fn lemma_model_added(scopes: Seq<ScopeView>, i: int, name: Seq<char>, v: ShellVariable)
    requires
        0 <= i < scopes.len(),
    ensures
        model_of(with_var(scopes, i, name, v)) == with_model_var(model_of(scopes), i, name, v@),
{
    lemma_model_with_var(scopes, i, name, v);
}

impl ShellEnvironment {
    /// Assigns the literal `value` to the variable `name` (a validated base name), or adds
    /// it (see [`assign_outcome`]).
    fn update_or_add_impl(
        &mut self,
        name: String,
        value: ShellValueLiteral,
        update: VarUpdate,
        lookup_policy: EnvironmentLookup,
        scope_if_creating: EnvironmentScope,
    ) -> (r: Result<(), Error>)
        requires
            old(self).wf(),
            is_valid_name(name@),
            old(self).spec_entry_count() < usize::MAX,
        ensures
            final(self).wf(),
            final(self).auto_export() == old(self).auto_export(),
            match assign_outcome(
                old(self)@,
                old(self).auto_export(),
                name@,
                value.view(),
                update,
                lookup_policy,
                scope_if_creating,
            ) {
                Ok(after) => r is Ok && model_of(final(self)@) == after,
                Err(e) => r matches Err(re) && error_is(re, e) && model_of(final(self)@) == model_of(old(self)@),
            },
    {
        let auto_export = self.export_variables_on_modification;
        let ghost old_view = self@;
        let ghost pos = find_pos(old_view, name@, lookup_policy);
        let ghost lit = value.view();
        proof {
            super::lemma_find_pos_from(old_view, name@, lookup_policy, old_view.len() as int, 0);
        }
        let exists = self.get_by_exact_name_using_policy(name.as_str(), lookup_policy).is_some();
        if exists {
            let ghost mut fv = ShellVariable::unset_placeholder();
            let r = match self.get_mut_by_exact_name_using_policy(name.as_str(), lookup_policy) {
                Some((_, var)) => {
                    let bad_target = match &value {
                        ShellValueLiteral::Scalar(target) => var.is_treated_as_nameref()
                            && !super::valid_nameref_target_name(target.as_str()),
                        _ => false,
                    };
                    let r = if bad_target {
                        let t = match &value {
                            ShellValueLiteral::Scalar(target) => target.clone(),
                            _ => String::new(),
                        };
                        Err(Error::new(ErrorKind::InvalidVariableName(t)))
                    } else {
                        match var.assign(value) {
                            Ok(()) => {
                                if auto_export {
                                    var.export();
                                }
                                update.apply(var);
                                Ok(())
                            },
                            Err(e) => Err(e),
                        }
                    };
                    proof {
                        fv = *var;
                    }
                    r
                },
                None => {
                    proof {
                        assert(false);
                    }
                    Ok(())
                },
            };
            proof {
                let j = pos->0;
                lemma_model_with_var(old_view, j, name@, fv);
                lemma_model_same(old_view, j, name@);
            }
            return r;
        }
        let mut var = ShellVariable::new_unset();
        match var.assign(value) {
            Ok(()) => {},
            Err(e) => {
                return Err(e);
            },
        }
        if auto_export {
            var.export();
        }
        update.apply(&mut var);
        proof {
            lemma_valid_name_no_bracket(name@);
        }
        let ghost var_final = var;
        let r = self.add(name.as_str(), var, scope_if_creating);
        proof {
            if let Some(i) = topmost_of(old_view, scope_if_creating, old_view.len() as int) {
                lemma_topmost_of(old_view, scope_if_creating, old_view.len() as int);
                lemma_model_added(old_view, i, name@, stored_var(var_final, auto_export));
                var_final.lemma_exported_copy();
            }
        }
        r
    }
}


impl ShellEnvironment {
    /// Stores `value` at `index` of the variable `name` (a validated base name), or adds an
    /// array holding it (see [`assign_at_outcome`]).
    fn update_or_add_array_element_impl(
        &mut self,
        name: String,
        index: String,
        value: String,
        update: VarUpdate,
        lookup_policy: EnvironmentLookup,
        scope_if_creating: EnvironmentScope,
    ) -> (r: Result<(), Error>)
        requires
            old(self).wf(),
            is_valid_name(name@),
            old(self).spec_entry_count() < usize::MAX,
        ensures
            final(self).wf(),
            final(self).auto_export() == old(self).auto_export(),
            match assign_at_outcome(
                old(self)@,
                old(self).auto_export(),
                name@,
                index@,
                value@,
                update,
                lookup_policy,
                scope_if_creating,
            ) {
                Ok(after) => r is Ok && model_of(final(self)@) == after,
                Err(e) => r matches Err(re) && error_is(re, e) && model_of(final(self)@) == model_of(old(self)@),
            },
    {
        let auto_export = self.export_variables_on_modification;
        let ghost old_view = self@;
        let ghost pos = find_pos(old_view, name@, lookup_policy);
        proof {
            super::lemma_find_pos_from(old_view, name@, lookup_policy, old_view.len() as int, 0);
        }
        let exists = self.get_by_exact_name_using_policy(name.as_str(), lookup_policy).is_some();
        if exists {
            let ghost mut fv = ShellVariable::unset_placeholder();
            let r = match self.get_mut_by_exact_name_using_policy(name.as_str(), lookup_policy) {
                Some((_, var)) => {
                    let r = match var.assign_at_index(index, value) {
                        Ok(()) => {
                            update.apply(var);
                            Ok(())
                        },
                        Err(e) => Err(e),
                    };
                    proof {
                        fv = *var;
                    }
                    r
                },
                None => {
                    proof {
                        assert(false);
                    }
                    Ok(())
                },
            };
            proof {
                let j = pos->0;
                lemma_model_with_var(old_view, j, name@, fv);
                lemma_model_same(old_view, j, name@);
            }
            return r;
        }
        let mut pairs: Vec<(Option<String>, String)> = Vec::new();
        pairs.push((Some(index), value));
        proof {
            assert(crate::variables::literal_pairs(pairs@) =~= seq![(Some(index@), value@)]);
        }
        let literal = ShellValueLiteral::Array(crate::variables::ArrayLiteral(pairs));
        proof {
            assert(literal.view() == LiteralView::Array(seq![(Some(index@), value@)]));
        }
        let mut var = ShellVariable::new_unset();
        match var.assign(literal) {
            Ok(()) => {},
            Err(e) => {
                return Err(e);
            },
        }
        update.apply(&mut var);
        proof {
            lemma_valid_name_no_bracket(name@);
        }
        let ghost var_final = var;
        let r = self.add(name.as_str(), var, scope_if_creating);
        proof {
            if let Some(i) = topmost_of(old_view, scope_if_creating, old_view.len() as int) {
                lemma_topmost_of(old_view, scope_if_creating, old_view.len() as int);
                lemma_model_added(old_view, i, name@, stored_var(var_final, auto_export));
                var_final.lemma_exported_copy();
            }
        }
        r
    }

    /// Updates a variable through the name reference `name`, or adds it (see
    /// [`write_outcome`]): the literal `value` is assigned to the variable that
    /// `lookup_policy` finds, then the attributes of `update` are given to it; with none
    /// found, a new variable is created in the top-most scope of type `scope_if_creating`.
    pub fn update_or_add(
        &mut self,
        name: NameRef,
        value: ShellValueLiteral,
        update: VarUpdate,
        lookup_policy: EnvironmentLookup,
        scope_if_creating: EnvironmentScope,
    ) -> (r: Result<(), Error>)
        requires
            old(self).wf(),
            old(self).spec_entry_count() < usize::MAX,
        ensures
            final(self).wf(),
            final(self).auto_export() == old(self).auto_export(),
            match write_outcome(
                old(self)@,
                old(self).auto_export(),
                nameref_view(name),
                value.view(),
                update,
                lookup_policy,
                scope_if_creating,
            ) {
                Ok(after) => r is Ok && model_of(final(self)@) == after,
                Err(e) => r matches Err(re) && error_is(re, e) && model_of(final(self)@) == model_of(old(self)@),
            },
    {
        let target = match self.resolve_write_target(name) {
            Ok(t) => t,
            Err(e) => {
                return Err(e);
            },
        };
        let lookup_policy = target.scope.lookup_policy_or(lookup_policy);
        let scope_if_creating = target.scope.creation_scope_or(scope_if_creating);
        match target.subscript {
            Some(idx) => match value {
                ShellValueLiteral::Scalar(scalar) => self.update_or_add_array_element_impl(
                    target.base,
                    idx,
                    scalar,
                    update,
                    lookup_policy,
                    scope_if_creating,
                ),
                ShellValueLiteral::Array(_) => Err(
                    Error::new(ErrorKind::SubscriptedNameRefTarget { name: target.base, subscript: idx }),
                ),
            },
            None => self.update_or_add_impl(target.base, value, update, lookup_policy, scope_if_creating),
        }
    }

    /// The common assignment: resolve the name, look anywhere, create in the global scope,
    /// change no attribute (see [`update_or_add`](Self::update_or_add)).
    pub fn set_var(&mut self, name: NameRef, value: ShellValueLiteral) -> (r: Result<(), Error>)
        requires
            old(self).wf(),
            old(self).spec_entry_count() < usize::MAX,
        ensures
            final(self).wf(),
            final(self).auto_export() == old(self).auto_export(),
            match write_outcome(
                old(self)@,
                old(self).auto_export(),
                nameref_view(name),
                value.view(),
                VarUpdate { export: false, readonly: false, nameref: false },
                EnvironmentLookup::Anywhere,
                EnvironmentScope::Global,
            ) {
                Ok(after) => r is Ok && model_of(final(self)@) == after,
                Err(e) => r matches Err(re) && error_is(re, e) && model_of(final(self)@) == model_of(old(self)@),
            },
    {
        self.update_or_add(name, value, VarUpdate::none(), EnvironmentLookup::Anywhere, EnvironmentScope::Global)
    }

    /// Updates the element `index` of an array variable through the name reference `name`,
    /// or adds an array holding it (see [`write_at_outcome`]).
    pub fn update_or_add_array_element(
        &mut self,
        name: NameRef,
        index: String,
        value: String,
        update: VarUpdate,
        lookup_policy: EnvironmentLookup,
        scope_if_creating: EnvironmentScope,
    ) -> (r: Result<(), Error>)
        requires
            old(self).wf(),
            old(self).spec_entry_count() < usize::MAX,
        ensures
            final(self).wf(),
            final(self).auto_export() == old(self).auto_export(),
            match write_at_outcome(
                old(self)@,
                old(self).auto_export(),
                nameref_view(name),
                index@,
                value@,
                update,
                lookup_policy,
                scope_if_creating,
            ) {
                Ok(after) => r is Ok && model_of(final(self)@) == after,
                Err(e) => r matches Err(re) && error_is(re, e) && model_of(final(self)@) == model_of(old(self)@),
            },
    {
        let target = match self.resolve_write_target(name) {
            Ok(t) => t,
            Err(e) => {
                return Err(e);
            },
        };
        match target.subscript {
            Some(subscript) => Err(Error::new(ErrorKind::SubscriptedNameRefTarget { name: target.base, subscript })),
            None => {
                let lookup_policy = target.scope.lookup_policy_or(lookup_policy);
                let scope_if_creating = target.scope.creation_scope_or(scope_if_creating);
                self.update_or_add_array_element_impl(
                    target.base,
                    index,
                    value,
                    update,
                    lookup_policy,
                    scope_if_creating,
                )
            },
        }
    }
}


/// Fluent builder for a variable write, created by [`ShellEnvironment::write`]: it collects
/// an element index, attributes to give, a lookup restriction and a creation scope, then
/// performs the write on [`set`](Self::set).
pub struct VarWrite<'a> {
    /// The environment written to, borrowed until the write is performed.
    pub env: &'a mut ShellEnvironment,
    /// The name to write, resolved through namerefs or taken as it is.
    pub name: NameRef,
    /// The array element to write, if not the whole variable.
    pub index: Option<String>,
    /// The attributes to give the variable after the assignment.
    pub update: VarUpdate,
    /// Which scopes an existing variable is looked up in.
    pub lookup_policy: EnvironmentLookup,
    /// The scope a new variable is created in.
    pub scope_if_creating: EnvironmentScope,
}

impl<'a> VarWrite<'a> {
    /// The name, index, attributes, lookup policy and creation scope of the write.
    pub closed spec fn settings(&self) -> (NameRefView, Option<Seq<char>>, VarUpdate, EnvironmentLookup, EnvironmentScope) {
        (nameref_view(self.name), opt_view(self.index), self.update, self.lookup_policy, self.scope_if_creating)
    }

    /// The environment written to.
    pub closed spec fn env(&self) -> ShellEnvironment {
        *self.env
    }

    /// Targets the array element at `index` instead of the whole variable.
    pub fn at_index(self, index: String) -> (r: Self)
        ensures
            r.settings() == (self.settings().0, Some(index@), self.settings().2, self.settings().3, self.settings().4),
            r.env() == self.env(),
            *final(r.env) == *final(self.env),
    {
        VarWrite { index: Some(index), ..self }
    }

    /// Gives the variable the attributes of `update` right after the assignment.
    pub fn updating(self, update: VarUpdate) -> (r: Self)
        ensures
            r.settings() == (self.settings().0, self.settings().1, update, self.settings().3, self.settings().4),
            r.env() == self.env(),
            *final(r.env) == *final(self.env),
    {
        VarWrite { update, ..self }
    }

    /// Restricts which scopes an existing variable is looked up in.
    pub fn in_scope(self, policy: EnvironmentLookup) -> (r: Self)
        ensures
            r.settings() == (self.settings().0, self.settings().1, self.settings().2, policy, self.settings().4),
            r.env() == self.env(),
            *final(r.env) == *final(self.env),
    {
        VarWrite { lookup_policy: policy, ..self }
    }

    /// Sets the scope a newly created variable lands in.
    pub fn creating_in(self, scope: EnvironmentScope) -> (r: Self)
        ensures
            r.settings() == (self.settings().0, self.settings().1, self.settings().2, self.settings().3, scope),
            r.env() == self.env(),
            *final(r.env) == *final(self.env),
    {
        VarWrite { scope_if_creating: scope, ..self }
    }

    /// Performs the write: the whole variable (see [`write_outcome`]) or, with an index,
    /// the element (see [`write_at_outcome`]); a list for an element is refused.
    pub fn set(self, value: ShellValueLiteral) -> (r: Result<(), Error>)
        requires
            self.env().wf(),
            self.env().spec_entry_count() < usize::MAX,
        ensures
            final(self.env).wf(),
            final(self.env).auto_export() == self.env().auto_export(),
            match (self.settings().1, value.view()) {
                (Some(_), LiteralView::Array(_)) => r matches Err(e) && error_is(e, WriteError::ListToMember)
                    && *final(self.env) == self.env(),
                (Some(idx), LiteralView::Scalar(s)) => match write_at_outcome(
                    self.env()@,
                    self.env().auto_export(),
                    self.settings().0,
                    idx,
                    s,
                    self.settings().2,
                    self.settings().3,
                    self.settings().4,
                ) {
                    Ok(after) => r is Ok && model_of(final(self.env)@) == after,
                    Err(e) => r matches Err(re) && error_is(re, e) && model_of(final(self.env)@) == model_of(
                        self.env()@,
                    ),
                },
                (None, lit) => match write_outcome(
                    self.env()@,
                    self.env().auto_export(),
                    self.settings().0,
                    lit,
                    self.settings().2,
                    self.settings().3,
                    self.settings().4,
                ) {
                    Ok(after) => r is Ok && model_of(final(self.env)@) == after,
                    Err(e) => r matches Err(re) && error_is(re, e) && model_of(final(self.env)@) == model_of(
                        self.env()@,
                    ),
                },
            },
    {
        let VarWrite { env, name, index, update, lookup_policy, scope_if_creating } = self;
        match index {
            Some(index) => match value {
                ShellValueLiteral::Scalar(scalar) => env.update_or_add_array_element(
                    name,
                    index,
                    scalar,
                    update,
                    lookup_policy,
                    scope_if_creating,
                ),
                ShellValueLiteral::Array(_) => Err(Error::new(ErrorKind::AssigningListToArrayMember)),
            },
            None => env.update_or_add(name, value, update, lookup_policy, scope_if_creating),
        }
    }
}

impl ShellEnvironment {
    /// Begins a fluent variable write: a whole-variable assignment that looks anywhere,
    /// creates in the global scope and changes no attribute, until refined.
    pub fn write(&mut self, name: NameRef) -> (r: VarWrite<'_>)
        ensures
            r.settings() == (
                nameref_view(name),
                None::<Seq<char>>,
                VarUpdate { export: false, readonly: false, nameref: false },
                EnvironmentLookup::Anywhere,
                EnvironmentScope::Global,
            ),
            r.env() == *old(self),
            *final(r.env) == *final(self),
    {
        VarWrite {
            env: self,
            name,
            index: None,
            update: VarUpdate::none(),
            lookup_policy: EnvironmentLookup::Anywhere,
            scope_if_creating: EnvironmentScope::Global,
        }
    }
}


impl ShellEnvironment {
    /// Unsets the variable itself, not what it references (see [`unset_raw_outcome`]).
    pub fn unset_bypassing_nameref(&mut self, name: &str) -> (r: Result<Option<ShellVariable>, Error>)
        requires
            old(self).wf(),
        ensures
            final(self).wf(),
            final(self).auto_export() == old(self).auto_export(),
            match unset_raw_outcome(old(self)@, name@) {
                Ok((after, removed)) => r == Ok::<Option<ShellVariable>, Error>(removed) && final(self)@ == after,
                Err(e) => r matches Err(re) && error_is(re, e) && final(self)@ == old(self)@,
            },
    {
        self.unset_raw(name)
    }

    /// Unsets the element `index` of the variable that a resolving lookup of `name` finds
    /// (the index given wins over a subscript in the nameref's target), returning whether
    /// an element was removed. A readonly variable is refused.
    pub fn unset_index(&mut self, name: &str, index: &str) -> (r: Result<bool, Error>)
        requires
            old(self).wf(),
        ensures
            final(self).wf(),
            final(self).auto_export() == old(self).auto_export(),
            match super::lookup::resolved_lookup_mut(old(self)@, name@) {
                None => r == Ok::<bool, Error>(false) && final(self)@ == old(self)@,
                Some((k, base, _)) => {
                    let v = old(self)@[k].1[base]@;
                    if v.readonly {
                        r matches Err(e) && error_is(e, WriteError::Readonly) && model_of(final(self)@) == model_of(
                            old(self)@,
                        )
                    } else {
                        r == Ok::<bool, Error>(value_after_unset_at(v.value, index@).1) && model_of(final(self)@)
                            == with_model_var(
                            model_of(old(self)@),
                            k,
                            base,
                            VarView { value: value_after_unset_at(v.value, index@).0, ..v },
                        )
                    }
                },
            },
    {
        let (base, policy) = match self.get_by_exact_name(name) {
            None => {
                return Ok(false);
            },
            Some((_, var)) => {
                if !var.is_treated_as_nameref() {
                    (name.to_owned(), EnvironmentLookup::Anywhere)
                } else {
                    match self.resolve_nameref_chain(name) {
                        Err(_) => {
                            return Ok(false);
                        },
                        Ok((resolved, rs)) => {
                            let (b, _) = super::names::parse_nameref_subscript(resolved.as_str());
                            (b.to_owned(), rs.lookup_policy_or(EnvironmentLookup::Anywhere))
                        },
                    }
                }
            },
        };
        let ghost old_view = self@;
        let ghost pos = find_pos(old_view, base@, policy);
        proof {
            super::lemma_find_pos_from(old_view, name@, EnvironmentLookup::Anywhere, old_view.len() as int, 0);
            super::lemma_find_pos_from(old_view, base@, policy, old_view.len() as int, 0);
        }
        let ghost mut fv = ShellVariable::unset_placeholder();
        let r = match self.get_mut_by_exact_name_using_policy(base.as_str(), policy) {
            Some((_, var)) => {
                let r = var.unset_index(index);
                proof {
                    fv = *var;
                }
                r
            },
            None => Ok(false),
        };
        proof {
            if pos is Some {
                let k = pos->0;
                lemma_model_with_var(old_view, k, base@, fv);
                lemma_model_same(old_view, k, base@);
            }
        }
        r
    }

    /// Updates the variable itself (not what it references), or adds it (see
    /// [`assign_outcome`]); the name must be a legal variable name.
    pub fn update_or_add_bypassing_nameref(
        &mut self,
        name: &str,
        value: ShellValueLiteral,
        update: VarUpdate,
        lookup_policy: EnvironmentLookup,
        scope_if_creating: EnvironmentScope,
    ) -> (r: Result<(), Error>)
        requires
            old(self).wf(),
            old(self).spec_entry_count() < usize::MAX,
        ensures
            final(self).wf(),
            final(self).auto_export() == old(self).auto_export(),
            !is_valid_name(name@) ==> (r matches Err(e) && error_is(e, WriteError::InvalidName(name@))
                && final(self)@ == old(self)@),
            is_valid_name(name@) ==> match assign_outcome(
                old(self)@,
                old(self).auto_export(),
                name@,
                value.view(),
                update,
                lookup_policy,
                scope_if_creating,
            ) {
                Ok(after) => r is Ok && model_of(final(self)@) == after,
                Err(e) => r matches Err(re) && error_is(re, e) && model_of(final(self)@) == model_of(old(self)@),
            },
    {
        if !super::valid_variable_name(name) {
            return Err(Error::new(ErrorKind::InvalidVariableName(name.to_owned())));
        }
        self.update_or_add_impl(name.to_owned(), value, update, lookup_policy, scope_if_creating)
    }
}

} // verus!
