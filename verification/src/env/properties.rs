//! Properties of nameref resolution, lookup and writes that hold of every environment.

use vstd::prelude::*;

use super::lookup::{resolved_lookup, with_subscript};
use super::names::{fault_message, first_index_of, is_valid_name, is_valid_nameref_target, split_subscript};
use super::{
    find_pos, find_pos_from, find_var, follow, next_link, resolve_chain, with_var, EnvironmentLookup,
    EnvironmentScope, FaultView, NameRefFaultKind, ResolvedScope, ScopeView,
};
use super::mutation::{
    assign_outcome, fresh_var, unset_outcome, unset_raw_model, model_of, with_model_var, write_at_outcome, write_outcome, write_target, NameRefView,
    WriteError,
};
use crate::variables::LiteralView;
use super::VarUpdate;
use crate::variables::{decimal_index, nameref_target, ShellVariable, ValueView, VarView};

verus! {

/// Following a chain yields a fault blaming its head, a target that is no live nameref,
/// or a self-referential nameref's own name for the global scope.
proof fn lemma_follow(
    scopes: Seq<ScopeView>,
    policy: EnvironmentLookup,
    head: Seq<char>,
    current: Seq<char>,
    visited: Seq<Seq<char>>,
)
    ensures
        follow(scopes, policy, head, current, visited) matches Err(f) ==> f.head == head,
        follow(scopes, policy, head, current, visited) matches Ok((t, ResolvedScope::Default)) ==> next_link(
            scopes,
            t,
            policy,
        ) is None,
        follow(scopes, policy, head, current, visited) matches Ok((t, ResolvedScope::Global)) ==> next_link(
            scopes,
            t,
            policy,
        ) matches Some((sc, t2)) && t2 == t && sc != EnvironmentScope::Global,
    decreases 8 - visited.len(),
{
    if !visited.contains(current) {
        match next_link(scopes, current, policy) {
            None => {},
            Some((sc, t)) => {
                if t != current && visited.len() + 1 <= 8 {
                    lemma_follow(scopes, policy, head, t, visited.push(current));
                }
            },
        }
    }
}

/// Resolving a name that is not a live nameref gives the name itself.
pub proof fn law_resolve_identity(scopes: Seq<ScopeView>, name: Seq<char>, policy: EnvironmentLookup)
    requires
        next_link(scopes, name, policy) is None,
    ensures
        resolve_chain(scopes, name, policy) == Ok::<(Seq<char>, ResolvedScope), FaultView>((name, ResolvedScope::Default)),
{
}

/// A resolution fault names the variable resolution started from.
pub proof fn law_fault_blames_head(scopes: Seq<ScopeView>, name: Seq<char>, policy: EnvironmentLookup)
    ensures
        resolve_chain(scopes, name, policy) matches Err(f) ==> f.head == name,
{
    if let Some((sc, t)) = next_link(scopes, name, policy) {
        if t != name {
            lemma_follow(scopes, policy, name, t, seq![name]);
        }
    }
}

/// What a name resolves to in the default scope is not itself a live nameref; what it
/// resolves to in the global scope is a self-referential nameref outside the global scope.
pub proof fn law_resolved_target_is_final(scopes: Seq<ScopeView>, name: Seq<char>, policy: EnvironmentLookup)
    ensures
        resolve_chain(scopes, name, policy) matches Ok((t, ResolvedScope::Default)) ==> next_link(
            scopes,
            t,
            policy,
        ) is None,
        resolve_chain(scopes, name, policy) matches Ok((t, ResolvedScope::Global)) ==> next_link(
            scopes,
            t,
            policy,
        ) matches Some((sc, t2)) && t2 == t && sc != EnvironmentScope::Global,
{
    if let Some((sc, t)) = next_link(scopes, name, policy) {
        if t != name {
            lemma_follow(scopes, policy, name, t, seq![name]);
        }
    }
}

/// A lookup through a live nameref whose target is a plain name that is no live nameref
/// finds the variable of the target's name.
pub proof fn law_lookup_through_nameref(scopes: Seq<ScopeView>, r: Seq<char>, t: Seq<char>)
    requires
        find_var(scopes, r, EnvironmentLookup::Anywhere) matches Some((_, v)) && nameref_target(v@) == Some(t),
        t != r,
        next_link(scopes, t, EnvironmentLookup::Anywhere) is None,
        split_subscript(t) is None,
    ensures
        resolved_lookup(scopes, r) == with_subscript(find_var(scopes, t, EnvironmentLookup::Anywhere), None),
{
    assert(!seq![r].contains(t)) by {
        if seq![r].contains(t) {
            assert(seq![r][0] == r);
        }
    }
}

/// A walk that does not reach scope `i` finds the same in scopes that differ only there.
proof fn lemma_find_pos_from_other_scope(
    a: Seq<ScopeView>,
    b: Seq<ScopeView>,
    name: Seq<char>,
    policy: EnvironmentLookup,
    i: int,
    k: int,
    locals: int,
)
    requires
        a.len() == b.len(),
        0 <= i < a.len(),
        k <= a.len(),
        forall|j: int| 0 <= j < a.len() && j != i ==> a[j] == b[j],
        a[i].0 == b[i].0,
        a[i].1.contains_key(name) == b[i].1.contains_key(name),
    ensures
        find_pos_from(a, name, policy, k, locals) == find_pos_from(b, name, policy, k, locals),
    decreases k,
{
    if k > 0 {
        let lc = if a[k - 1].0 == EnvironmentScope::Local { locals + 1 } else { locals };
        lemma_find_pos_from_other_scope(a, b, name, policy, i, k - 1, lc);
    }
}

/// Storing a variable under one name does not change what a lookup of another name finds.
pub proof fn law_write_keeps_other_names(
    scopes: Seq<ScopeView>,
    i: int,
    name: Seq<char>,
    v: ShellVariable,
    other: Seq<char>,
    policy: EnvironmentLookup,
)
    requires
        0 <= i < scopes.len(),
        other != name,
    ensures
        find_var(with_var(scopes, i, name, v), other, policy) == find_var(scopes, other, policy),
{
    let after = with_var(scopes, i, name, v);
    lemma_find_pos_from_other_scope(scopes, after, other, policy, i, scopes.len() as int, 0);
    super::lemma_find_pos_from(scopes, other, policy, scopes.len() as int, 0);
    if let Some(j) = find_pos(scopes, other, policy) {
        if j == i {
            assert(after[j].1[other] == scopes[j].1[other]);
        } else {
            assert(after[j] == scopes[j]);
        }
    }
}

/// A variable stored in the top-most scope is what a lookup anywhere of its name finds.
pub proof fn law_write_then_read(scopes: Seq<ScopeView>, name: Seq<char>, v: ShellVariable)
    requires
        scopes.len() > 0,
    ensures
        find_var(with_var(scopes, scopes.len() - 1, name, v), name, EnvironmentLookup::Anywhere) == Some(
            (scopes.last().0, v),
        ),
{
}

/// A legal variable name is a valid nameref target.
pub proof fn law_valid_name_is_valid_target(s: Seq<char>)
    requires
        is_valid_name(s),
    ensures
        is_valid_nameref_target(s),
{
    super::mutation::lemma_valid_name_no_bracket(s);
    super::names::lemma_first_index_of(s, '[');
    if first_index_of(s, '[') is Some {
        let p = first_index_of(s, '[')->0;
        assert(s.contains('['));
    }
}

/// A target with a subscript is its base, `[`, the subscript and `]`, where the base is
/// not empty and holds no `[`.
pub proof fn law_subscript_split_rebuilds(t: Seq<char>)
    ensures
        split_subscript(t) matches Some((base, sub)) ==> t == base + seq!['['] + sub + seq![']']
            && base.len() > 0 && !base.contains('['),
{
    if let Some((base, sub)) = split_subscript(t) {
        let inner = t.drop_last();
        super::names::lemma_first_index_of(inner, '[');
        let p = first_index_of(inner, '[')->0;
        assert(t =~= base + seq!['['] + sub + seq![']']);
        assert(!base.contains('[')) by {
            if base.contains('[') {
                let i = choose|i: int| 0 <= i < base.len() && base[i] == '[';
                assert(inner[i] == '[');
            }
        }
    }
}

/// Whether `a` is a live nameref to `b` under `policy`.
pub open spec fn links_to(scopes: Seq<ScopeView>, policy: EnvironmentLookup, a: Seq<char>, b: Seq<char>) -> bool {
    next_link(scopes, a, policy) matches Some((_, t)) && t == b
}

/// Whether `ns` is a chain of distinct names under `policy`: each but the last is a live
/// nameref to the next, and the last is no live nameref.
pub open spec fn is_plain_chain(scopes: Seq<ScopeView>, policy: EnvironmentLookup, ns: Seq<Seq<char>>) -> bool {
    &&& ns.len() >= 1
    &&& forall|i: int| 0 <= i < ns.len() - 1 ==> #[trigger] links_to(scopes, policy, ns[i], ns[i + 1])
    &&& next_link(scopes, ns.last(), policy) is None
    &&& forall|i: int, j: int| 0 <= i < j < ns.len() ==> ns[i] != ns[j]
}

/// What resolving the head of a chain of `links` namerefs gives: its last name, or a
/// max-depth fault blaming the head when the chain is longer than the limit.
pub open spec fn chain_outcome(ns: Seq<Seq<char>>) -> Result<(Seq<char>, ResolvedScope), FaultView> {
    if ns.len() - 1 <= 8 {
        Ok((ns.last(), ResolvedScope::Default))
    } else {
        Err(FaultView { kind: NameRefFaultKind::MaxDepthExceeded { max: 8 }, head: ns[0] })
    }
}

/// Following a chain from its `v`-th name, having passed the ones before it.
proof fn lemma_follow_chain(scopes: Seq<ScopeView>, policy: EnvironmentLookup, ns: Seq<Seq<char>>, v: int)
    requires
        is_plain_chain(scopes, policy, ns),
        1 <= v < ns.len(),
        v <= 8,
    ensures
        follow(scopes, policy, ns[0], ns[v], ns.take(v)) == chain_outcome(ns),
    decreases ns.len() - v,
{
    assert(!ns.take(v).contains(ns[v])) by {
        if ns.take(v).contains(ns[v]) {
            let i = choose|i: int| 0 <= i < ns.take(v).len() && ns.take(v)[i] == ns[v];
            assert(ns[i] != ns[v]);
        }
    }
    if v < ns.len() - 1 {
        assert(links_to(scopes, policy, ns[v], ns[v + 1]));
        assert(ns[v] != ns[v + 1]);
        if v + 1 <= 8 {
            assert(ns.take(v).push(ns[v]) =~= ns.take(v + 1));
            lemma_follow_chain(scopes, policy, ns, v + 1);
        }
    }
}

/// Resolving the head of a chain of distinct namerefs that ends at a name that is no live
/// nameref gives that name when the chain has at most [`super::MAX_NAMEREF_DEPTH`] links,
/// and otherwise a max-depth fault blaming the head.
pub proof fn law_chain_depth(scopes: Seq<ScopeView>, policy: EnvironmentLookup, ns: Seq<Seq<char>>)
    requires
        is_plain_chain(scopes, policy, ns),
    ensures
        resolve_chain(scopes, ns[0], policy) == chain_outcome(ns),
        ns.len() - 1 > 8 ==> fault_message(resolve_chain(scopes, ns[0], policy)->Err_0) == ns[0]
            + ": maximum nameref depth (8) exceeded"@,
{
    reveal_strlit(": maximum nameref depth (");
    reveal_strlit(") exceeded");
    reveal_strlit(": maximum nameref depth (8) exceeded");
    assert(crate::text::decimal_text(8) == seq!['8']);
    assert(": maximum nameref depth ("@ + seq!['8'] + ") exceeded"@ =~= ": maximum nameref depth (8) exceeded"@);
    if ns.len() > 1 {
        assert(links_to(scopes, policy, ns[0], ns[1]));
        assert(ns[0] != ns[1]);
        assert(seq![ns[0]] =~= ns.take(1));
        lemma_follow_chain(scopes, policy, ns, 1);
    }
}

/// Writing `value` at element `index` of a name that no scope holds, with no attributes to
/// give, looking anywhere and creating globally: an indexed array holding only that element
/// is created in the top-most global scope, exported only if the environment exports on
/// modification.
pub proof fn law_element_write_creates_array(
    scopes: Seq<ScopeView>,
    auto: bool,
    name: Seq<char>,
    index: Seq<char>,
    value: Seq<char>,
)
    requires
        is_valid_name(name),
        find_var(scopes, name, EnvironmentLookup::Anywhere) is None,
        decimal_index(index) is Some,
        super::mutation::topmost_of(scopes, EnvironmentScope::Global, scopes.len() as int) is Some,
    ensures
        write_at_outcome(
            scopes,
            auto,
            NameRefView::Resolve(name),
            index,
            value,
            VarUpdate { export: false, readonly: false, nameref: false },
            EnvironmentLookup::Anywhere,
            EnvironmentScope::Global,
        ) == Ok::<Seq<super::mutation::ScopeModel>, WriteError>(with_model_var(
            model_of(scopes),
            super::mutation::topmost_of(scopes, EnvironmentScope::Global, scopes.len() as int)->0,
            name,
            VarView {
                value: ValueView::Indexed(Map::empty().insert(decimal_index(index)->0 as u64, value)),
                exported: auto,
                readonly: false,
                nameref: false,
            },
        )),
{
    super::mutation::lemma_valid_name_no_bracket(name);
    super::names::lemma_first_index_of(name.drop_last(), '[');
    if split_subscript(name) is Some {
        let p = first_index_of(name.drop_last(), '[')->0;
        assert(name[p] == '[');
        assert(name.contains('['));
    }
    let pairs = seq![(Some(index), value)];
    let n = decimal_index(index)->0;
    assert(pairs.drop_first() =~= Seq::<(Option<Seq<char>>, Seq<char>)>::empty());
    assert(crate::variables::assign_indexed(Map::empty(), 0, pairs) == crate::variables::assign_indexed(
        Map::<u64, Seq<char>>::empty().insert(n as u64, value),
        n + 1,
        pairs.drop_first(),
    ));
    let v = fresh_var();
    assert(!crate::variables::is_assoc(v.value));
}

/// An element write whose name resolves to a target that has a subscript of its own (a
/// nameref to `arr[2]`, say) is refused, naming the target's base and subscript.
pub proof fn law_element_write_through_subscripted_target(
    scopes: Seq<ScopeView>,
    auto: bool,
    n: NameRefView,
    index: Seq<char>,
    value: Seq<char>,
    u: VarUpdate,
    policy: EnvironmentLookup,
    creating: EnvironmentScope,
)
    requires
        write_target(scopes, n) matches Ok(t) && t.subscript is Some,
    ensures
        write_at_outcome(scopes, auto, n, index, value, u, policy, creating) == Err::<Seq<super::mutation::ScopeModel>, WriteError>(
            WriteError::Subscripted(write_target(scopes, n)->Ok_0.name, write_target(scopes, n)->Ok_0.subscript->0),
        ),
{
}

/// A write through a live nameref whose target is a legal name that is no live nameref is
/// the same write to the target (a variable found anywhere is assigned in place; else one
/// is created in the top-most scope of the creating type): `set_var` and `update_or_add`
/// through a nameref write the variable it refers to.
pub proof fn law_write_through_nameref(
    scopes: Seq<ScopeView>,
    auto: bool,
    r: Seq<char>,
    t: Seq<char>,
    lit: LiteralView,
    u: VarUpdate,
    creating: EnvironmentScope,
)
    requires
        find_var(scopes, r, EnvironmentLookup::Anywhere) matches Some((_, v)) && nameref_target(v@) == Some(t),
        t != r,
        is_valid_name(t),
        next_link(scopes, t, EnvironmentLookup::Anywhere) is None,
    ensures
        write_outcome(scopes, auto, NameRefView::Resolve(r), lit, u, EnvironmentLookup::Anywhere, creating)
            == assign_outcome(scopes, auto, t, lit, u, EnvironmentLookup::Anywhere, creating),
{
    assert(!seq![r].contains(t)) by {
        if seq![r].contains(t) {
            assert(seq![r][0] == r);
        }
    }
    super::mutation::lemma_valid_name_no_bracket(t);
    super::names::lemma_first_index_of(t.drop_last(), '[');
    if split_subscript(t) is Some {
        let p = first_index_of(t.drop_last(), '[')->0;
        assert(t[p] == '[');
        assert(t.contains('['));
    }
}

/// Unsetting through a live nameref whose target is a legal name that is no live nameref
/// unsets the target, not the nameref.
pub proof fn law_unset_through_nameref(scopes: Seq<ScopeView>, r: Seq<char>, t: Seq<char>)
    requires
        find_var(scopes, r, EnvironmentLookup::Anywhere) matches Some((_, v)) && nameref_target(v@) == Some(t),
        t != r,
        is_valid_name(t),
        next_link(scopes, t, EnvironmentLookup::Anywhere) is None,
    ensures
        unset_outcome(scopes, NameRefView::Resolve(r)) == unset_raw_model(scopes, t),
{
    assert(!seq![r].contains(t)) by {
        if seq![r].contains(t) {
            assert(seq![r][0] == r);
        }
    }
    super::mutation::lemma_valid_name_no_bracket(t);
    super::names::lemma_first_index_of(t.drop_last(), '[');
    if split_subscript(t) is Some {
        let p = first_index_of(t.drop_last(), '[')->0;
        assert(t[p] == '[');
        assert(t.contains('['));
    }
}

} // verus!
