//! Listing the variables an environment shows.

use vstd::prelude::*;

use super::var_map::{entries_map, lemma_entries_at, lemma_entries_dom, names_distinct};
use super::{find_pos, find_pos_from, find_var, EnvironmentLookup, EnvironmentScope, ShellEnvironment};
use crate::text;
use crate::variables::ShellVariable;

verus! {

/// The names of listed variables.
pub open spec fn listed_names(v: Seq<(&String, &ShellVariable)>) -> Seq<Seq<char>> {
    v.map_values(|p: (&String, &ShellVariable)| p.0@)
}

/// Returns whether `name` is among the listed names.
fn is_listed(v: &Vec<(&String, &ShellVariable)>, name: &String) -> (r: bool)
    ensures
        r == listed_names(v@).contains(name@),
{
    let mut i: usize = 0;
    while i < v.len()
        invariant
            i <= v@.len(),
            forall|j: int| 0 <= j < i ==> listed_names(v@)[j] != name@,
        decreases v@.len() - i,
    {
        if text::str_eq(v[i].0.as_str(), name.as_str()) {
            proof {
                assert(listed_names(v@)[i as int] == name@);
            }
            return true;
        }
        i = i + 1;
    }
    false
}

impl ShellEnvironment {
    /// Returns the variables the environment shows under the lookup policy: each name
    /// once, with the variable that looking it up under the policy finds (the one in the
    /// innermost scope the policy admits), in no particular order.
    pub fn iter_using_policy(&self, lookup_policy: EnvironmentLookup) -> (r: Vec<(&String, &ShellVariable)>)
        requires
            self.wf(),
        ensures
            forall|i: int| 0 <= i < r@.len() ==> #[trigger] find_var(self@, r@[i].0@, lookup_policy) is Some
                && find_var(self@, r@[i].0@, lookup_policy).unwrap().1 == *r@[i].1,
            forall|name: Seq<char>| #[trigger] find_var(self@, name, lookup_policy) is Some ==> listed_names(r@).contains(name),
            forall|i: int, j: int| 0 <= i < j < r@.len() ==> r@[i].0@ != r@[j].0@,
    {
        let ghost sv = self@;
        let n: usize = self.scopes.len();
        let mut out: Vec<(&String, &ShellVariable)> = Vec::new();
        let mut local_count: usize = 0;
        let mut k: usize = n;
        let mut done = false;
        while k > 0 && !done
            invariant
                self.wf(),
                sv == self@,
                n == sv.len(),
                k <= n,
                local_count <= n - k,
                forall|i: int| 0 <= i < out@.len() ==> #[trigger] find_pos(sv, out@[i].0@, lookup_policy) is Some
                    && sv[find_pos(sv, out@[i].0@, lookup_policy).unwrap()].1[out@[i].0@] == *out@[i].1,
                forall|i: int, j: int| 0 <= i < j < out@.len() ==> out@[i].0@ != out@[j].0@,
                !done ==> forall|name: Seq<char>| #![trigger find_pos(sv, name, lookup_policy)]
                    listed_names(out@).contains(name) || find_pos(sv, name, lookup_policy) == find_pos_from(
                        sv,
                        name,
                        lookup_policy,
                        k as int,
                        local_count as int,
                    ),
                done ==> forall|name: Seq<char>| #![trigger find_pos(sv, name, lookup_policy)]
                    listed_names(out@).contains(name) || find_pos(sv, name, lookup_policy) is None,
            decreases k,
        {
            let scope = &self.scopes[k - 1];
            let scope_type = scope.0;
            let ghost lc0 = local_count;
            if matches!(scope_type, EnvironmentScope::Local) {
                local_count = local_count + 1;
            }
            proof {
                assert(self.scopes@[k - 1].1.wf());
                assert(sv[k - 1] == (scope_type, self.scopes@[k - 1].1@));
            }
            let admitted = lookup_policy.admits(scope_type, local_count);
            let stops = lookup_policy.terminates_after(scope_type);
            if admitted {
                let entries = scope.1.iter();
                let ghost before = out@;
                let ghost m = sv[k - 1].1;
                let mut e: usize = 0;
                while e < entries.len()
                    invariant
                        sv == self@,
                        k <= n == sv.len(),
                        0 < k,
                        names_distinct(entries@),
                        entries_map(entries@) == m,
                        m == sv[k - 1].1,
                        e <= entries@.len(),
                        admitted == super::scope::admits_scope(lookup_policy, sv[k - 1].0, local_count as int),
                        admitted,
                        local_count == lc0 + if sv[k - 1].0 == EnvironmentScope::Local { 1int } else { 0int },
                        out@.len() >= before.len(),
                        forall|i: int| 0 <= i < before.len() ==> out@[i] == before[i],
                        forall|i: int| before.len() <= i < out@.len() ==> m.contains_key(#[trigger] out@[i].0@) && m[out@[i].0@]
                            == *out@[i].1 && !listed_names(before).contains(out@[i].0@),
                        forall|i: int, j: int| 0 <= i < j < out@.len() ==> out@[i].0@ != out@[j].0@,
                        forall|name: Seq<char>| #![trigger listed_names(out@).contains(name)]
                            listed_names(out@).contains(name) <==> (listed_names(before).contains(name) || (
                            !listed_names(before).contains(name) && exists|j: int| 0 <= j < e && entries@[j].0@ == name)),
                    decreases entries@.len() - e,
                {
                    let entry = &entries[e];
                    let listed = is_listed(&out, &entry.0);
                    let ghost prev = out@;
                    if !listed {
                        proof {
                            lemma_entries_at(entries@, e as int);
                        }
                        out.push((&entry.0, &entry.1));
                        proof {
                            assert(listed_names(out@) =~= listed_names(prev).push(entry.0@));
                            assert forall|i: int, j: int| 0 <= i < j < out@.len() implies out@[i].0@ != out@[j].0@ by {
                                if j == out@.len() - 1 {
                                    assert(listed_names(prev)[i] == prev[i].0@);
                                }
                            }
                        }
                    }
                    proof {
                        let en = entries@[e as int].0@;
                        assert(en == entry.0@);
                        assert forall|name: Seq<char>| #![trigger listed_names(out@).contains(name)]
                            listed_names(out@).contains(name) <==> (listed_names(before).contains(name) || (
                            !listed_names(before).contains(name) && exists|j: int| 0 <= j < e + 1 && entries@[j].0@ == name)) by {
                            let pe = listed_names(prev).contains(name);
                            assert(pe <==> (listed_names(before).contains(name) || (!listed_names(before).contains(name)
                                && exists|j: int| 0 <= j < e && entries@[j].0@ == name)));
                            if listed {
                                assert(out@ == prev);
                            } else {
                                assert(listed_names(out@) =~= listed_names(prev).push(en));
                                if name == en {
                                    assert(listed_names(out@)[prev.len() as int] == name);
                                }
                                if pe {
                                    let j = choose|j: int| 0 <= j < listed_names(prev).len() && listed_names(prev)[j] == name;
                                    assert(listed_names(out@)[j] == name);
                                }
                                if listed_names(out@).contains(name) && name != en {
                                    let j = choose|j: int| 0 <= j < listed_names(out@).len() && listed_names(out@)[j] == name;
                                    assert(listed_names(prev)[j] == name);
                                }
                            }
                            if exists|j: int| 0 <= j < e + 1 && entries@[j].0@ == name {
                                let j = choose|j: int| 0 <= j < e + 1 && entries@[j].0@ == name;
                                if j < e {
                                    assert(exists|j2: int| 0 <= j2 < e && entries@[j2].0@ == name);
                                } else {
                                    assert(name == en);
                                }
                            }
                            if exists|j: int| 0 <= j < e && entries@[j].0@ == name {
                                let j = choose|j: int| 0 <= j < e && entries@[j].0@ == name;
                                assert(0 <= j < e + 1 && entries@[j].0@ == name);
                            }
                        }
                    }
                    e = e + 1;
                }
                proof {
                    assert forall|i: int| 0 <= i < out@.len() implies #[trigger] find_pos(sv, out@[i].0@, lookup_policy) is Some
                        && sv[find_pos(sv, out@[i].0@, lookup_policy).unwrap()].1[out@[i].0@] == *out@[i].1 by {
                        if i >= before.len() {
                            let name = out@[i].0@;
                            assert(find_pos(sv, name, lookup_policy) == find_pos_from(sv, name, lookup_policy, k as int, lc0 as int));
                            assert(find_pos(sv, name, lookup_policy) == Some((k - 1) as int));
                        } else {
                            assert(out@[i] == before[i]);
                        }
                    }
                    assert forall|name: Seq<char>| #![trigger find_pos(sv, name, lookup_policy)]
                        listed_names(out@).contains(name) || find_pos(sv, name, lookup_policy) == if stops {
                            None
                        } else {
                            find_pos_from(sv, name, lookup_policy, (k - 1) as int, local_count as int)
                        } by {
                        if !listed_names(out@).contains(name) {
                            assert(!listed_names(before).contains(name));
                            lemma_entries_dom(entries@, name);
                            assert(!m.contains_key(name));
                            assert(find_pos(sv, name, lookup_policy) == find_pos_from(sv, name, lookup_policy, k as int, lc0 as int));
                        }
                    }
                }
            } else {
                proof {
                    assert forall|name: Seq<char>| #![trigger find_pos(sv, name, lookup_policy)]
                        listed_names(out@).contains(name) || find_pos(sv, name, lookup_policy) == if stops {
                            None
                        } else {
                            find_pos_from(sv, name, lookup_policy, (k - 1) as int, local_count as int)
                        } by {
                        if !listed_names(out@).contains(name) {
                            assert(find_pos(sv, name, lookup_policy) == find_pos_from(sv, name, lookup_policy, k as int, lc0 as int));
                        }
                    }
                }
            }
            if stops {
                done = true;
            }
            k = k - 1;
        }
        proof {
            assert forall|name: Seq<char>| #[trigger] find_var(sv, name, lookup_policy) is Some implies listed_names(out@).contains(
                name,
            ) by {
                if !listed_names(out@).contains(name) {
                    assert(find_pos(sv, name, lookup_policy) is None);
                }
            }
            assert forall|i: int| 0 <= i < out@.len() implies #[trigger] find_var(sv, out@[i].0@, lookup_policy) is Some
                && find_var(sv, out@[i].0@, lookup_policy).unwrap().1 == *out@[i].1 by {
                assert(find_pos(sv, out@[i].0@, lookup_policy) is Some);
            }
        }
        out
    }

    /// Returns all the variables the environment shows (see [`Self::iter_using_policy`],
    /// with no restriction on scopes).
    pub fn iter(&self) -> (r: Vec<(&String, &ShellVariable)>)
        requires
            self.wf(),
        ensures
            forall|i: int| 0 <= i < r@.len() ==> #[trigger] find_var(self@, r@[i].0@, EnvironmentLookup::Anywhere) is Some
                && find_var(self@, r@[i].0@, EnvironmentLookup::Anywhere).unwrap().1 == *r@[i].1,
            forall|name: Seq<char>| #[trigger] find_var(self@, name, EnvironmentLookup::Anywhere) is Some ==> listed_names(
                r@,
            ).contains(name),
            forall|i: int, j: int| 0 <= i < j < r@.len() ==> r@[i].0@ != r@[j].0@,
    {
        self.iter_using_policy(EnvironmentLookup::Anywhere)
    }
}

/// The position of the innermost scope, below `i`, holding an exported variable `name`.
pub open spec fn find_exported_from(scopes: Seq<super::ScopeView>, name: Seq<char>, i: int) -> Option<int>
    decreases i,
{
    if i <= 0 {
        None
    } else if scopes[i - 1].1.contains_key(name) && scopes[i - 1].1[name]@.exported {
        Some(i - 1)
    } else {
        find_exported_from(scopes, name, i - 1)
    }
}

/// The exported variable `name` that child processes get: the innermost exported one
/// (an unexported one in a scope further in does not hide it).
pub open spec fn find_exported(scopes: Seq<super::ScopeView>, name: Seq<char>) -> Option<ShellVariable> {
    match find_exported_from(scopes, name, scopes.len() as int) {
        Some(j) => Some(scopes[j].1[name]),
        None => None,
    }
}

impl ShellEnvironment {
    /// Returns the exported variables: each name once, with the innermost exported
    /// variable of that name (see [`find_exported`]), in no particular order.
    pub fn iter_exported(&self) -> (r: Vec<(&String, &ShellVariable)>)
        requires
            self.wf(),
        ensures
            forall|i: int| 0 <= i < r@.len() ==> #[trigger] find_exported(self@, r@[i].0@) == Some(*r@[i].1),
            forall|name: Seq<char>| #[trigger] find_exported(self@, name) is Some ==> listed_names(r@).contains(name),
            forall|i: int, j: int| 0 <= i < j < r@.len() ==> r@[i].0@ != r@[j].0@,
    {
        let ghost sv = self@;
        let n: usize = self.scopes.len();
        let mut out: Vec<(&String, &ShellVariable)> = Vec::new();
        let mut k: usize = n;
        while k > 0
            invariant
                self.wf(),
                sv == self@,
                n == sv.len(),
                k <= n,
                forall|i: int| 0 <= i < out@.len() ==> #[trigger] find_exported(sv, out@[i].0@) == Some(*out@[i].1),
                forall|i: int, j: int| 0 <= i < j < out@.len() ==> out@[i].0@ != out@[j].0@,
                forall|name: Seq<char>| #![trigger find_exported_from(sv, name, n as int)]
                    listed_names(out@).contains(name) || find_exported_from(sv, name, n as int) == find_exported_from(
                        sv,
                        name,
                        k as int,
                    ),
            decreases k,
        {
            let scope = &self.scopes[k - 1];
            proof {
                assert(self.scopes@[k - 1].1.wf());
                assert(sv[k - 1] == (scope.0, self.scopes@[k - 1].1@));
            }
            let entries = scope.1.iter();
            let ghost before = out@;
            let ghost m = sv[k - 1].1;
            let mut e: usize = 0;
            while e < entries.len()
                invariant
                    sv == self@,
                    k <= n == sv.len(),
                    0 < k,
                    names_distinct(entries@),
                    entries_map(entries@) == m,
                    m == sv[k - 1].1,
                    e <= entries@.len(),
                    out@.len() >= before.len(),
                    forall|i: int| 0 <= i < before.len() ==> out@[i] == before[i],
                    forall|i: int| before.len() <= i < out@.len() ==> m.contains_key(#[trigger] out@[i].0@) && m[out@[i].0@]
                        == *out@[i].1 && out@[i].1@.exported && !listed_names(before).contains(out@[i].0@),
                    forall|i: int, j: int| 0 <= i < j < out@.len() ==> out@[i].0@ != out@[j].0@,
                    forall|name: Seq<char>| #![trigger listed_names(out@).contains(name)]
                        listed_names(out@).contains(name) <==> (listed_names(before).contains(name) || (
                        !listed_names(before).contains(name) && exists|j: int| 0 <= j < e && entries@[j].0@ == name
                            && entries@[j].1@.exported)),
                decreases entries@.len() - e,
            {
                let entry = &entries[e];
                let ghost prev = out@;
                let mut listed = true;
                if entry.1.is_exported() {
                    listed = is_listed(&out, &entry.0);
                    if !listed {
                        proof {
                            lemma_entries_at(entries@, e as int);
                        }
                        out.push((&entry.0, &entry.1));
                        proof {
                            assert(listed_names(out@) =~= listed_names(prev).push(entry.0@));
                            assert forall|i: int, j: int| 0 <= i < j < out@.len() implies out@[i].0@ != out@[j].0@ by {
                                if j == out@.len() - 1 {
                                    assert(listed_names(prev)[i] == prev[i].0@);
                                }
                            }
                        }
                    }
                }
                proof {
                    let en = entries@[e as int].0@;
                    assert(en == entry.0@);
                    assert forall|name: Seq<char>| #![trigger listed_names(out@).contains(name)]
                        listed_names(out@).contains(name) <==> (listed_names(before).contains(name) || (
                        !listed_names(before).contains(name) && exists|j: int| 0 <= j < e + 1 && entries@[j].0@ == name
                            && entries@[j].1@.exported)) by {
                        let pe = listed_names(prev).contains(name);
                        assert(pe <==> (listed_names(before).contains(name) || (!listed_names(before).contains(name)
                            && exists|j: int| 0 <= j < e && entries@[j].0@ == name && entries@[j].1@.exported)));
                        if listed {
                            assert(out@ == prev);
                        } else {
                            assert(listed_names(out@) =~= listed_names(prev).push(en));
                            if name == en {
                                assert(listed_names(out@)[prev.len() as int] == name);
                            }
                            if pe {
                                let j = choose|j: int| 0 <= j < listed_names(prev).len() && listed_names(prev)[j] == name;
                                assert(listed_names(out@)[j] == name);
                            }
                            if listed_names(out@).contains(name) && name != en {
                                let j = choose|j: int| 0 <= j < listed_names(out@).len() && listed_names(out@)[j] == name;
                                assert(listed_names(prev)[j] == name);
                            }
                        }
                        if exists|j: int| 0 <= j < e + 1 && entries@[j].0@ == name && entries@[j].1@.exported {
                            let j = choose|j: int| 0 <= j < e + 1 && entries@[j].0@ == name && entries@[j].1@.exported;
                            if j < e {
                                assert(exists|j2: int| 0 <= j2 < e && entries@[j2].0@ == name && entries@[j2].1@.exported);
                            } else {
                                assert(name == en);
                            }
                        }
                        if exists|j: int| 0 <= j < e && entries@[j].0@ == name && entries@[j].1@.exported {
                            let j = choose|j: int| 0 <= j < e && entries@[j].0@ == name && entries@[j].1@.exported;
                            assert(0 <= j < e + 1 && entries@[j].0@ == name);
                        }
                    }
                }
                e = e + 1;
            }
            proof {
                assert forall|i: int| 0 <= i < out@.len() implies #[trigger] find_exported(sv, out@[i].0@) == Some(*out@[i].1) by {
                    if i >= before.len() {
                        let name = out@[i].0@;
                        assert(find_exported_from(sv, name, n as int) == find_exported_from(sv, name, k as int));
                        assert(find_exported_from(sv, name, k as int) == Some((k - 1) as int));
                    } else {
                        assert(out@[i] == before[i]);
                    }
                }
                assert forall|name: Seq<char>| #![trigger find_exported_from(sv, name, n as int)]
                    listed_names(out@).contains(name) || find_exported_from(sv, name, n as int) == find_exported_from(
                        sv,
                        name,
                        (k - 1) as int,
                    ) by {
                    if !listed_names(out@).contains(name) {
                        assert(!listed_names(before).contains(name));
                        assert(find_exported_from(sv, name, n as int) == find_exported_from(sv, name, k as int));
                        if m.contains_key(name) && m[name]@.exported {
                            lemma_entries_dom(entries@, name);
                            let j = choose|j: int| 0 <= j < entries@.len() && entries@[j].0@ == name;
                            lemma_entries_at(entries@, j);
                            assert(false);
                        }
                    }
                }
            }
            k = k - 1;
        }
        proof {
            assert forall|name: Seq<char>| #[trigger] find_exported(sv, name) is Some implies listed_names(out@).contains(name) by {
                if !listed_names(out@).contains(name) {
                    assert(find_exported_from(sv, name, n as int) == find_exported_from(sv, name, 0));
                }
            }
        }
        out
    }
}

} // verus!
