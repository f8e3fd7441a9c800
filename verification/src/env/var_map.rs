//! Flat name → variable map, the per-scope storage of the environment.

use vstd::prelude::*;

use crate::text;
use crate::variables::ShellVariable;

verus! {

/// Represents a map from names to shell variables.
#[derive(Debug)]
pub struct ShellVariableMap {
    variables: Vec<(String, ShellVariable)>,
}

/// The map a sequence of (name, variable) pairs with distinct names denotes.
pub open spec fn entries_map(s: Seq<(String, ShellVariable)>) -> Map<Seq<char>, ShellVariable>
    decreases s.len(),
{
    if s.len() == 0 {
        Map::empty()
    } else {
        entries_map(s.drop_last()).insert(s.last().0@, s.last().1)
    }
}

/// No name occurs twice.
pub open spec fn names_distinct(s: Seq<(String, ShellVariable)>) -> bool {
    forall|i: int, j: int| 0 <= i < j < s.len() ==> s[i].0@ != s[j].0@
}

/// Every variable of a map is well-formed.
pub open spec fn all_vars_wf(m: Map<Seq<char>, ShellVariable>) -> bool {
    forall|k: Seq<char>| m.contains_key(k) ==> #[trigger] m[k].wf()
}

pub proof fn lemma_entries_at(s: Seq<(String, ShellVariable)>, i: int)
    requires
        names_distinct(s),
        0 <= i < s.len(),
    ensures
        entries_map(s).contains_key(s[i].0@),
        entries_map(s)[s[i].0@] == s[i].1,
    decreases s.len(),
{
    if i < s.len() - 1 {
        lemma_entries_at(s.drop_last(), i);
    }
}

pub proof fn lemma_entries_dom(s: Seq<(String, ShellVariable)>, k: Seq<char>)
    ensures
        entries_map(s).contains_key(k) <==> exists|j: int| 0 <= j < s.len() && s[j].0@ == k,
    decreases s.len(),
{
    if s.len() > 0 {
        lemma_entries_dom(s.drop_last(), k);
        if entries_map(s.drop_last()).contains_key(k) {
            let j = choose|j: int| 0 <= j < s.drop_last().len() && s.drop_last()[j].0@ == k;
            assert(s[j].0@ == k);
        }
        if exists|j: int| 0 <= j < s.len() && s[j].0@ == k {
            let j = choose|j: int| 0 <= j < s.len() && s[j].0@ == k;
            if j < s.len() - 1 {
                assert(s.drop_last()[j].0@ == k);
            }
        }
    }
}

proof fn lemma_entries_len(s: Seq<(String, ShellVariable)>)
    requires
        names_distinct(s),
    ensures
        entries_map(s).dom().finite(),
        entries_map(s).dom().len() == s.len(),
    decreases s.len(),
{
    if s.len() > 0 {
        lemma_entries_len(s.drop_last());
        lemma_entries_dom(s.drop_last(), s.last().0@);
    }
}

proof fn lemma_entries_update(s: Seq<(String, ShellVariable)>, i: int, e: (String, ShellVariable))
    requires
        names_distinct(s),
        0 <= i < s.len(),
        s[i].0@ == e.0@,
    ensures
        names_distinct(s.update(i, e)),
        entries_map(s.update(i, e)) == entries_map(s).insert(e.0@, e.1),
    decreases s.len(),
{
    let t = s.update(i, e);
    if i < s.len() - 1 {
        assert(t.drop_last() == s.drop_last().update(i, e));
        lemma_entries_update(s.drop_last(), i, e);
        assert(entries_map(t) =~= entries_map(s).insert(e.0@, e.1));
    } else {
        assert(t.drop_last() == s.drop_last());
        lemma_entries_dom(s.drop_last(), e.0@);
        assert(entries_map(t) =~= entries_map(s).insert(e.0@, e.1));
    }
}

proof fn lemma_entries_push(s: Seq<(String, ShellVariable)>, e: (String, ShellVariable))
    requires
        names_distinct(s),
        forall|j: int| 0 <= j < s.len() ==> s[j].0@ != e.0@,
    ensures
        names_distinct(s.push(e)),
        entries_map(s.push(e)) == entries_map(s).insert(e.0@, e.1),
{
    assert(s.push(e).drop_last() == s);
}

proof fn lemma_entries_remove(s: Seq<(String, ShellVariable)>, i: int)
    requires
        names_distinct(s),
        0 <= i < s.len(),
    ensures
        names_distinct(s.remove(i)),
        entries_map(s.remove(i)) == entries_map(s).remove(s[i].0@),
    decreases s.len(),
{
    let t = s.remove(i);
    if i < s.len() - 1 {
        assert(t.drop_last() == s.drop_last().remove(i));
        assert(t.last() == s.last());
        lemma_entries_remove(s.drop_last(), i);
        assert(entries_map(t) =~= entries_map(s).remove(s[i].0@));
    } else {
        assert(t == s.drop_last());
        lemma_entries_dom(s.drop_last(), s[i].0@);
        assert(entries_map(t) =~= entries_map(s).remove(s[i].0@));
    }
}

impl ShellVariableMap {
    /// The model: the variables by name.
    pub closed spec fn view(&self) -> Map<Seq<char>, ShellVariable> {
        entries_map(self.variables@)
    }

    /// Well-formed: no name twice, every variable well-formed.
    pub closed spec fn wf(&self) -> bool {
        names_distinct(self.variables@) && all_vars_wf(self@)
    }

    /// The number of variables in the map.
    pub closed spec fn size(&self) -> nat {
        self.variables@.len()
    }

    /// A well-formed map has as many variables as names.
    pub proof fn lemma_size(&self)
        requires
            self.wf(),
        ensures
            self@.dom().finite(),
            self.size() == self@.dom().len(),
            all_vars_wf(self@),
    {
        lemma_entries_len(self.variables@);
    }

    /// Returns an empty map.
    pub fn new() -> (m: Self)
        ensures
            m.wf(),
            m@ == Map::<Seq<char>, ShellVariable>::empty(),
            m.size() == 0,
    {
        let m = ShellVariableMap { variables: Vec::new() };
        proof {
            assert(m@ =~= Map::<Seq<char>, ShellVariable>::empty());
        }
        m
    }

    /// The number of variables in the map.
    pub fn len(&self) -> (r: usize)
        ensures
            r == self.size(),
    {
        self.variables.len()
    }

    fn find(&self, name: &str) -> (r: Option<usize>)
        requires
            self.wf(),
        ensures
            match r {
                Some(i) => i < self.variables@.len() && self.variables@[i as int].0@ == name@
                    && self@.contains_key(name@) && self@[name@] == self.variables@[i as int].1,
                None => !self@.contains_key(name@),
            },
    {
        let mut i: usize = 0;
        while i < self.variables.len()
            invariant
                self.wf(),
                i <= self.variables@.len(),
                forall|j: int| 0 <= j < i ==> self.variables@[j].0@ != name@,
            decreases self.variables@.len() - i,
        {
            if text::str_eq(self.variables[i].0.as_str(), name) {
                proof {
                    lemma_entries_at(self.variables@, i as int);
                }
                return Some(i);
            }
            i = i + 1;
        }
        proof {
            lemma_entries_dom(self.variables@, name@);
        }
        None
    }

    /// Returns the names and variables of the map.
    pub fn iter(&self) -> (r: &Vec<(String, ShellVariable)>)
        requires
            self.wf(),
        ensures
            names_distinct(r@),
            entries_map(r@) == self@,
    {
        &self.variables
    }

    /// Tries to retrieve an immutable reference to the variable with the given name.
    pub fn get(&self, name: &str) -> (r: Option<&ShellVariable>)
        requires
            self.wf(),
        ensures
            match r {
                Some(v) => self@.contains_key(name@) && *v == self@[name@],
                None => !self@.contains_key(name@),
            },
    {
        match self.find(name) {
            Some(i) => Some(&self.variables[i].1),
            None => None,
        }
    }

    /// Tries to retrieve a mutable reference to the variable with the given name. The map
    /// stays well-formed as long as the variable does.
    pub fn get_mut(&mut self, name: &str) -> (r: Option<&mut ShellVariable>)
        requires
            old(self).wf(),
        ensures
            match r {
                Some(v) => old(self)@.contains_key(name@) && *v == old(self)@[name@]
                    && final(self)@ == old(self)@.insert(name@, *final(v))
                    && final(self).size() == old(self).size()
                    && (final(v).wf() ==> final(self).wf()),
                None => !old(self)@.contains_key(name@) && *final(self) == *old(self),
            },
    {
        match self.find(name) {
            Some(i) => {
                let ghost old_vars = self.variables@;
                let v = &mut self.variables[i].1;
                proof {
                    let e = (old_vars[i as int].0, *final(v));
                    lemma_entries_update(old_vars, i as int, e);
                    lemma_entries_at(old_vars, i as int);
                }
                Some(v)
            },
            None => None,
        }
    }

    /// Replaces the variable with the given name (which must be present).
    pub fn replace(&mut self, name: &str, var: ShellVariable) -> (r: ShellVariable)
        requires
            old(self).wf(),
            old(self)@.contains_key(name@),
            var.wf(),
        ensures
            final(self).wf(),
            final(self)@ == old(self)@.insert(name@, var),
            final(self).size() == old(self).size(),
            r == old(self)@[name@],
    {
        let i = self.find(name).unwrap();
        let key = self.variables[i].0.clone();
        proof {
            lemma_entries_update(self.variables@, i as int, (key, var));
        }
        let ghost before = self.variables@;
        let old_entry = self.variables.remove(i);
        self.variables.insert(i, (key, var));
        proof {
            assert(self.variables@ =~= before.update(i as int, (key, var)));
            assert forall|k: Seq<char>| self@.contains_key(k) implies #[trigger] self@[k].wf() by {
                if k != name@ {
                    assert(old(self)@.contains_key(k));
                }
            }
        }
        old_entry.1
    }

    /// Removes the variable with the given name, returning it if it was present.
    pub fn unset(&mut self, name: &str) -> (r: Option<ShellVariable>)
        requires
            old(self).wf(),
        ensures
            final(self).wf(),
            final(self)@ == old(self)@.remove(name@),
            match r {
                Some(v) => old(self)@.contains_key(name@) && v == old(self)@[name@]
                    && final(self).size() + 1 == old(self).size(),
                None => !old(self)@.contains_key(name@) && final(self).size() == old(self).size(),
            },
    {
        match self.find(name) {
            Some(i) => {
                proof {
                    lemma_entries_remove(self.variables@, i as int);
                }
                let (_, v) = self.variables.remove(i);
                proof {
                    assert forall|k: Seq<char>| self@.contains_key(k) implies #[trigger] self@[k].wf() by {
                        assert(old(self)@.contains_key(k));
                    }
                }
                Some(v)
            },
            None => {
                proof {
                    assert(old(self)@.remove(name@) =~= old(self)@);
                }
                None
            },
        }
    }

    /// Inserts a variable into the map, returning the one it replaces. The name must carry
    /// no subscript.
    pub fn set(&mut self, name: &str, var: ShellVariable) -> (r: Option<ShellVariable>)
        requires
            old(self).wf(),
            var.wf(),
            !name@.contains('['),
        ensures
            final(self).wf(),
            final(self)@ == old(self)@.insert(name@, var),
            match r {
                Some(v) => old(self)@.contains_key(name@) && v == old(self)@[name@]
                    && final(self).size() == old(self).size(),
                None => !old(self)@.contains_key(name@) && final(self).size() == old(self).size() + 1,
            },
    {
        match self.find(name) {
            Some(_) => Some(self.replace(name, var)),
            None => {
                proof {
                    lemma_entries_dom(self.variables@, name@);
                }
                let key = name.to_owned();
                proof {
                    lemma_entries_push(self.variables@, (key, var));
                }
                self.variables.push((key, var));
                proof {
                    assert forall|k: Seq<char>| self@.contains_key(k) implies #[trigger] self@[k].wf() by {
                        if k != name@ {
                            assert(old(self)@.contains_key(k));
                        }
                    }
                }
                None
            },
        }
    }
}

impl Default for ShellVariableMap {
    fn default() -> (m: Self)
        ensures
            m.wf(),
            m@ == Map::<Seq<char>, ShellVariable>::empty(),
    {
        ShellVariableMap::new()
    }
}

} // verus!
