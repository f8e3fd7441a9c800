//! Shell variables and their values, as the environment stores them.
//!
//! An indexed array maps non-negative integer indices to strings; an associative array
//! maps string keys to strings. Array subscripts are taken literally: an indexed array's
//! subscript is a decimal integer, and anything else names no element.

use vstd::prelude::*;

use crate::error::{Error, ErrorKind};
use crate::text;

verus! {

/// The type of an unset value.
#[derive(Clone, Copy, Debug, PartialEq, Eq, Structural)]
pub enum ShellValueUnsetType {
    /// Untyped.
    Untyped,
    /// An associative array.
    AssociativeArray,
    /// An indexed array.
    IndexedArray,
}

/// The value of a shell variable.
#[derive(Debug)]
pub enum ShellValue {
    /// A value that has been typed but not yet set.
    Unset(ShellValueUnsetType),
    /// A string.
    String(String),
    /// An indexed array: pairs of index and element, with no index twice.
    IndexedArray(Vec<(u64, String)>),
    /// An associative array: pairs of key and element, with no key twice.
    AssociativeArray(Vec<(String, String)>),
}

/// The mathematical model of a [`ShellValue`].
pub enum ValueView {
    /// An unset value of the given type.
    Unset(ShellValueUnsetType),
    /// A string.
    Str(Seq<char>),
    /// An indexed array, by index.
    Indexed(Map<u64, Seq<char>>),
    /// An associative array, by key.
    Assoc(Map<Seq<char>, Seq<char>>),
}

/// The map that a sequence of (index, element) pairs with distinct indices denotes.
pub open spec fn indexed_map(s: Seq<(u64, String)>) -> Map<u64, Seq<char>>
    decreases s.len(),
{
    if s.len() == 0 {
        Map::empty()
    } else {
        indexed_map(s.drop_last()).insert(s.last().0, s.last().1@)
    }
}

/// The map that a sequence of (key, element) pairs with distinct keys denotes.
pub open spec fn assoc_map(s: Seq<(String, String)>) -> Map<Seq<char>, Seq<char>>
    decreases s.len(),
{
    if s.len() == 0 {
        Map::empty()
    } else {
        assoc_map(s.drop_last()).insert(s.last().0@, s.last().1@)
    }
}

/// No index occurs twice.
pub open spec fn indices_distinct(s: Seq<(u64, String)>) -> bool {
    forall|i: int, j: int| 0 <= i < j < s.len() ==> s[i].0 != s[j].0
}

/// No key occurs twice.
pub open spec fn keys_distinct(s: Seq<(String, String)>) -> bool {
    forall|i: int, j: int| 0 <= i < j < s.len() ==> s[i].0@ != s[j].0@
}

impl ShellValue {
    /// The model of this value.
    pub open spec fn view(&self) -> ValueView {
        match self {
            ShellValue::Unset(t) => ValueView::Unset(*t),
            ShellValue::String(s) => ValueView::Str(s@),
            ShellValue::IndexedArray(v) => ValueView::Indexed(indexed_map(v@)),
            ShellValue::AssociativeArray(v) => ValueView::Assoc(assoc_map(v@)),
        }
    }

    /// Well-formed: array indices and keys are distinct.
    pub open spec fn wf(&self) -> bool {
        match self {
            ShellValue::IndexedArray(v) => indices_distinct(v@),
            ShellValue::AssociativeArray(v) => keys_distinct(v@),
            _ => true,
        }
    }

    /// Returns an indexed array holding `values` at indices 0, 1, ….
    pub fn indexed_array<const N: usize>(values: [&str; N]) -> (v: Self)
        ensures
            v.wf(),
            v.view() matches ValueView::Indexed(m) && m.dom() == Set::new(|i: u64| i < N)
                && forall|i: u64| i < N ==> #[trigger] m[i] == values@[i as int]@,
    {
        Self::indexed_array_from_strs(values.as_slice())
    }

    /// Returns an indexed array holding `values` at indices 0, 1, ….
    pub fn indexed_array_from_strs(values: &[&str]) -> (v: Self)
        ensures
            v.wf(),
            v.view() matches ValueView::Indexed(m) && m.dom() == Set::new(|i: u64| i < values@.len())
                && forall|i: u64| i < values@.len() ==> #[trigger] m[i] == values@[i as int]@,
    {
        let mut elems: Vec<(u64, String)> = Vec::new();
        let mut i: usize = 0;
        while i < values.len()
            invariant
                i <= values@.len(),
                elems@.len() == i,
                forall|j: int| 0 <= j < i ==> #[trigger] elems@[j].0 == j,
                indices_distinct(elems@),
                indexed_map(elems@).dom() == Set::new(|k: u64| k < i),
                forall|k: u64| k < i ==> #[trigger] indexed_map(elems@)[k] == values@[k as int]@,
            decreases values@.len() - i,
        {
            let ghost old_elems = elems@;
            elems.push((i as u64, values[i].to_owned()));
            proof {
                assert(elems@.drop_last() == old_elems);
                assert(indexed_map(elems@) == indexed_map(old_elems).insert(i as u64, values@[i as int]@));
                assert(indexed_map(elems@).dom() =~= Set::new(|k: u64| k < i + 1));
            }
            i = i + 1;
        }
        ShellValue::IndexedArray(elems)
    }

    /// Returns a copy of the value.
    pub fn deep_clone(&self) -> (r: Self)
        ensures
            r.view() == self.view(),
            self.wf() ==> r.wf(),
    {
        match self {
            ShellValue::Unset(t) => ShellValue::Unset(*t),
            ShellValue::String(s) => ShellValue::String(s.clone()),
            ShellValue::IndexedArray(v) => {
                let mut r: Vec<(u64, String)> = Vec::new();
                let mut i: usize = 0;
                while i < v.len()
                    invariant
                        i <= v@.len(),
                        r@.len() == i,
                        forall|j: int| 0 <= j < i ==> (#[trigger] r@[j]).0 == v@[j].0 && r@[j].1@ == v@[j].1@,
                    decreases v@.len() - i,
                {
                    r.push((v[i].0, v[i].1.clone()));
                    i = i + 1;
                }
                proof {
                    lemma_indexed_map_congruent(r@, v@);
                }
                ShellValue::IndexedArray(r)
            },
            ShellValue::AssociativeArray(v) => {
                let mut r: Vec<(String, String)> = Vec::new();
                let mut i: usize = 0;
                while i < v.len()
                    invariant
                        i <= v@.len(),
                        r@.len() == i,
                        forall|j: int| 0 <= j < i ==> (#[trigger] r@[j]).0@ == v@[j].0@ && r@[j].1@ == v@[j].1@,
                    decreases v@.len() - i,
                {
                    r.push((v[i].0.clone(), v[i].1.clone()));
                    i = i + 1;
                }
                proof {
                    lemma_assoc_map_congruent(r@, v@);
                }
                ShellValue::AssociativeArray(r)
            },
        }
    }

    /// Returns whether the value is set.
    pub fn is_set(&self) -> (r: bool)
        ensures
            r == !(self.view() is Unset),
    {
        !matches!(self, ShellValue::Unset(_))
    }

    /// Returns whether the value is an array.
    pub fn is_array(&self) -> (r: bool)
        ensures
            r == (self.view() is Indexed || self.view() is Assoc),
    {
        matches!(self, ShellValue::IndexedArray(_) | ShellValue::AssociativeArray(_))
    }
}

/// The element of an array model that `index` names, if any.
pub open spec fn element_at(v: ValueView, index: Seq<char>) -> Option<Seq<char>> {
    match v {
        ValueView::Indexed(m) => match crate::int_utils::decimal_value(index) {
            Some(n) => if n <= u64::MAX && m.contains_key(n as u64) {
                Some(m[n as u64])
            } else {
                None
            },
            None => None,
        },
        ValueView::Assoc(m) => if m.contains_key(index) {
            Some(m[index])
        } else {
            None
        },
        ValueView::Str(s) => if crate::int_utils::decimal_value(index) == Some(0int) {
            Some(s)
        } else {
            None
        },
        ValueView::Unset(_) => None,
    }
}

/// The string a value reads as: a string itself, or an array's element 0 (or `"0"`).
pub open spec fn value_text(v: ValueView) -> Seq<char> {
    match v {
        ValueView::Str(s) => s,
        ValueView::Indexed(m) => if m.contains_key(0) {
            m[0]
        } else {
            Seq::empty()
        },
        ValueView::Assoc(m) => if m.contains_key(seq!['0']) {
            m[seq!['0']]
        } else {
            Seq::empty()
        },
        ValueView::Unset(_) => Seq::empty(),
    }
}

/// Finds `index` in an indexed array's pairs.
fn find_index(v: &Vec<(u64, String)>, index: u64) -> (r: Option<usize>)
    ensures
        match r {
            Some(i) => i < v@.len() && v@[i as int].0 == index,
            None => forall|j: int| 0 <= j < v@.len() ==> v@[j].0 != index,
        },
{
    let mut i: usize = 0;
    while i < v.len()
        invariant
            i <= v@.len(),
            forall|j: int| 0 <= j < i ==> v@[j].0 != index,
        decreases v@.len() - i,
    {
        if v[i].0 == index {
            return Some(i);
        }
        i = i + 1;
    }
    None
}

/// Finds `key` in an associative array's pairs.
fn find_key(v: &Vec<(String, String)>, key: &str) -> (r: Option<usize>)
    ensures
        match r {
            Some(i) => i < v@.len() && v@[i as int].0@ == key@,
            None => forall|j: int| 0 <= j < v@.len() ==> v@[j].0@ != key@,
        },
{
    let mut i: usize = 0;
    while i < v.len()
        invariant
            i <= v@.len(),
            forall|j: int| 0 <= j < i ==> v@[j].0@ != key@,
        decreases v@.len() - i,
    {
        if text::str_eq(v[i].0.as_str(), key) {
            return Some(i);
        }
        i = i + 1;
    }
    None
}

/// Pairs with the same indices and element texts denote the same map.
proof fn lemma_indexed_map_congruent(a: Seq<(u64, String)>, b: Seq<(u64, String)>)
    requires
        a.len() == b.len(),
        forall|j: int| 0 <= j < a.len() ==> (#[trigger] a[j]).0 == b[j].0 && a[j].1@ == b[j].1@,
    ensures
        indexed_map(a) == indexed_map(b),
        indices_distinct(a) == indices_distinct(b),
    decreases a.len(),
{
    if a.len() > 0 {
        let n = a.len() - 1;
        assert forall|j: int| 0 <= j < n implies (#[trigger] a.drop_last()[j]).0 == b.drop_last()[j].0
            && a.drop_last()[j].1@ == b.drop_last()[j].1@ by {
            assert(a.drop_last()[j] == a[j]);
            assert(b.drop_last()[j] == b[j]);
        }
        lemma_indexed_map_congruent(a.drop_last(), b.drop_last());
        assert(a[n].0 == b[n].0 && a[n].1@ == b[n].1@);
    }
    assert forall|i: int, j: int| 0 <= i < j < a.len() implies (a[i].0 != a[j].0 <==> b[i].0 != b[j].0) by {
        assert(a[i].0 == b[i].0);
        assert(a[j].0 == b[j].0);
    }
}

/// Pairs with the same key and element texts denote the same map.
proof fn lemma_assoc_map_congruent(a: Seq<(String, String)>, b: Seq<(String, String)>)
    requires
        a.len() == b.len(),
        forall|j: int| 0 <= j < a.len() ==> (#[trigger] a[j]).0@ == b[j].0@ && a[j].1@ == b[j].1@,
    ensures
        assoc_map(a) == assoc_map(b),
        keys_distinct(a) == keys_distinct(b),
    decreases a.len(),
{
    if a.len() > 0 {
        let n = a.len() - 1;
        assert forall|j: int| 0 <= j < n implies (#[trigger] a.drop_last()[j]).0@ == b.drop_last()[j].0@
            && a.drop_last()[j].1@ == b.drop_last()[j].1@ by {
            assert(a.drop_last()[j] == a[j]);
            assert(b.drop_last()[j] == b[j]);
        }
        lemma_assoc_map_congruent(a.drop_last(), b.drop_last());
        assert(a[n].0@ == b[n].0@ && a[n].1@ == b[n].1@);
    }
    assert forall|i: int, j: int| 0 <= i < j < a.len() implies (a[i].0@ != a[j].0@ <==> b[i].0@ != b[j].0@) by {
        assert(a[i].0@ == b[i].0@);
        assert(a[j].0@ == b[j].0@);
    }
}

/// The element at position `i` of distinct pairs is what their map holds for its index.
proof fn lemma_indexed_map_at(s: Seq<(u64, String)>, i: int)
    requires
        indices_distinct(s),
        0 <= i < s.len(),
    ensures
        indexed_map(s).contains_key(s[i].0),
        indexed_map(s)[s[i].0] == s[i].1@,
    decreases s.len(),
{
    if i < s.len() - 1 {
        lemma_indexed_map_at(s.drop_last(), i);
    }
}

/// The indices in a map of pairs are those of the pairs.
proof fn lemma_indexed_map_dom(s: Seq<(u64, String)>, k: u64)
    ensures
        indexed_map(s).contains_key(k) <==> exists|j: int| 0 <= j < s.len() && s[j].0 == k,
    decreases s.len(),
{
    if s.len() > 0 {
        lemma_indexed_map_dom(s.drop_last(), k);
        if indexed_map(s.drop_last()).contains_key(k) {
            let j = choose|j: int| 0 <= j < s.drop_last().len() && s.drop_last()[j].0 == k;
            assert(s[j].0 == k);
        }
        if exists|j: int| 0 <= j < s.len() && s[j].0 == k {
            let j = choose|j: int| 0 <= j < s.len() && s[j].0 == k;
            if j < s.len() - 1 {
                assert(s.drop_last()[j].0 == k);
            }
        }
    }
}

/// The element at position `i` of distinct pairs is what their map holds for its key.
proof fn lemma_assoc_map_at(s: Seq<(String, String)>, i: int)
    requires
        keys_distinct(s),
        0 <= i < s.len(),
    ensures
        assoc_map(s).contains_key(s[i].0@),
        assoc_map(s)[s[i].0@] == s[i].1@,
    decreases s.len(),
{
    if i < s.len() - 1 {
        lemma_assoc_map_at(s.drop_last(), i);
    }
}

/// The keys in a map of pairs are those of the pairs.
proof fn lemma_assoc_map_dom(s: Seq<(String, String)>, k: Seq<char>)
    ensures
        assoc_map(s).contains_key(k) <==> exists|j: int| 0 <= j < s.len() && s[j].0@ == k,
    decreases s.len(),
{
    if s.len() > 0 {
        lemma_assoc_map_dom(s.drop_last(), k);
        if assoc_map(s.drop_last()).contains_key(k) {
            let j = choose|j: int| 0 <= j < s.drop_last().len() && s.drop_last()[j].0@ == k;
            assert(s[j].0@ == k);
        }
        if exists|j: int| 0 <= j < s.len() && s[j].0@ == k {
            let j = choose|j: int| 0 <= j < s.len() && s[j].0@ == k;
            if j < s.len() - 1 {
                assert(s.drop_last()[j].0@ == k);
            }
        }
    }
}


/// Replacing the pair for index `k` maps `k` to the new element.
proof fn lemma_indexed_map_update(s: Seq<(u64, String)>, i: int, e: (u64, String))
    requires
        indices_distinct(s),
        0 <= i < s.len(),
        s[i].0 == e.0,
    ensures
        indices_distinct(s.update(i, e)),
        indexed_map(s.update(i, e)) == indexed_map(s).insert(e.0, e.1@),
    decreases s.len(),
{
    let t = s.update(i, e);
    assert(t.drop_last() == if i < s.len() - 1 { s.drop_last().update(i, e) } else { s.drop_last() });
    if i < s.len() - 1 {
        lemma_indexed_map_update(s.drop_last(), i, e);
        assert(indexed_map(t) =~= indexed_map(s).insert(e.0, e.1@));
    } else {
        lemma_indexed_map_dom(s.drop_last(), e.0);
        assert(indexed_map(t) =~= indexed_map(s).insert(e.0, e.1@));
    }
}

/// Appending a pair for a new index maps it to its element.
proof fn lemma_indexed_map_push(s: Seq<(u64, String)>, e: (u64, String))
    requires
        indices_distinct(s),
        forall|j: int| 0 <= j < s.len() ==> s[j].0 != e.0,
    ensures
        indices_distinct(s.push(e)),
        indexed_map(s.push(e)) == indexed_map(s).insert(e.0, e.1@),
{
    assert(s.push(e).drop_last() == s);
}

/// Removing the pair for index `k` drops `k` from the map.
proof fn lemma_indexed_map_remove(s: Seq<(u64, String)>, i: int)
    requires
        indices_distinct(s),
        0 <= i < s.len(),
    ensures
        indices_distinct(s.remove(i)),
        indexed_map(s.remove(i)) == indexed_map(s).remove(s[i].0),
    decreases s.len(),
{
    let t = s.remove(i);
    if i < s.len() - 1 {
        assert(t.drop_last() == s.drop_last().remove(i));
        assert(t.last() == s.last());
        lemma_indexed_map_remove(s.drop_last(), i);
        assert(indexed_map(t) =~= indexed_map(s).remove(s[i].0));
    } else {
        assert(t == s.drop_last());
        lemma_indexed_map_dom(s.drop_last(), s[i].0);
        assert(indexed_map(t) =~= indexed_map(s).remove(s[i].0));
    }
}

/// Replacing the pair for key `k` maps `k` to the new element.
proof fn lemma_assoc_map_update(s: Seq<(String, String)>, i: int, e: (String, String))
    requires
        keys_distinct(s),
        0 <= i < s.len(),
        s[i].0@ == e.0@,
    ensures
        keys_distinct(s.update(i, e)),
        assoc_map(s.update(i, e)) == assoc_map(s).insert(e.0@, e.1@),
    decreases s.len(),
{
    let t = s.update(i, e);
    if i < s.len() - 1 {
        assert(t.drop_last() == s.drop_last().update(i, e));
        lemma_assoc_map_update(s.drop_last(), i, e);
        assert(assoc_map(t) =~= assoc_map(s).insert(e.0@, e.1@));
    } else {
        assert(t.drop_last() == s.drop_last());
        lemma_assoc_map_dom(s.drop_last(), e.0@);
        assert(assoc_map(t) =~= assoc_map(s).insert(e.0@, e.1@));
    }
}

/// Appending a pair for a new key maps it to its element.
proof fn lemma_assoc_map_push(s: Seq<(String, String)>, e: (String, String))
    requires
        keys_distinct(s),
        forall|j: int| 0 <= j < s.len() ==> s[j].0@ != e.0@,
    ensures
        keys_distinct(s.push(e)),
        assoc_map(s.push(e)) == assoc_map(s).insert(e.0@, e.1@),
{
    assert(s.push(e).drop_last() == s);
}

/// Removing the pair for key `k` drops `k` from the map.
proof fn lemma_assoc_map_remove(s: Seq<(String, String)>, i: int)
    requires
        keys_distinct(s),
        0 <= i < s.len(),
    ensures
        keys_distinct(s.remove(i)),
        assoc_map(s.remove(i)) == assoc_map(s).remove(s[i].0@),
    decreases s.len(),
{
    let t = s.remove(i);
    if i < s.len() - 1 {
        assert(t.drop_last() == s.drop_last().remove(i));
        assert(t.last() == s.last());
        lemma_assoc_map_remove(s.drop_last(), i);
        assert(assoc_map(t) =~= assoc_map(s).remove(s[i].0@));
    } else {
        assert(t == s.drop_last());
        lemma_assoc_map_dom(s.drop_last(), s[i].0@);
        assert(assoc_map(t) =~= assoc_map(s).remove(s[i].0@));
    }
}

/// Sets the element at `index` of an indexed array's pairs.
fn set_indexed(v: &mut Vec<(u64, String)>, index: u64, value: String)
    requires
        indices_distinct(old(v)@),
    ensures
        indices_distinct(final(v)@),
        indexed_map(final(v)@) == indexed_map(old(v)@).insert(index, value@),
{
    match find_index(v, index) {
        Some(i) => {
            proof {
                lemma_indexed_map_update(v@, i as int, (index, value));
            }
            v.set(i, (index, value));
        },
        None => {
            proof {
                lemma_indexed_map_push(v@, (index, value));
            }
            v.push((index, value));
        },
    }
}

/// Sets the element at `key` of an associative array's pairs.
fn set_assoc(v: &mut Vec<(String, String)>, key: String, value: String)
    requires
        keys_distinct(old(v)@),
    ensures
        keys_distinct(final(v)@),
        assoc_map(final(v)@) == assoc_map(old(v)@).insert(key@, value@),
{
    match find_key(v, key.as_str()) {
        Some(i) => {
            proof {
                lemma_assoc_map_update(v@, i as int, (key, value));
            }
            v.set(i, (key, value));
        },
        None => {
            proof {
                lemma_assoc_map_push(v@, (key, value));
            }
            v.push((key, value));
        },
    }
}


/// A literal value to assign to a variable.
#[derive(Debug)]
pub enum ShellValueLiteral {
    /// A scalar.
    Scalar(String),
    /// An array: elements with optional explicit subscripts.
    Array(ArrayLiteral),
}

/// The elements of an array literal: each with an optional subscript.
#[derive(Debug)]
pub struct ArrayLiteral(pub Vec<(Option<String>, String)>);

/// The model of an array literal's elements.
pub open spec fn literal_pairs(a: Seq<(Option<String>, String)>) -> Seq<(Option<Seq<char>>, Seq<char>)> {
    a.map_values(|p: (Option<String>, String)| (
        match p.0 {
            Some(k) => Some(k@),
            None => None,
        },
        p.1@,
    ))
}

/// The result of assigning the elements `pairs` to an indexed array `m`, in order: an
/// element with a subscript goes at that (decimal) index, one without at the index after
/// the previous element (`next`). A subscript that is not an index is reported.
pub open spec fn assign_indexed(
    m: Map<u64, Seq<char>>,
    next: int,
    pairs: Seq<(Option<Seq<char>>, Seq<char>)>,
) -> Result<Map<u64, Seq<char>>, Seq<char>>
    decreases pairs.len(),
{
    if pairs.len() == 0 {
        Ok(m)
    } else {
        let (key, value) = pairs[0];
        let index: Option<int> = match key {
            Some(k) => decimal_index(k),
            None => if next <= u64::MAX { Some(next) } else { None },
        };
        match index {
            Some(n) => assign_indexed(m.insert(n as u64, value), n + 1, pairs.drop_first()),
            None => Err(match key {
                Some(k) => k,
                None => Seq::empty(),
            }),
        }
    }
}

/// The index that subscript `k` names: its decimal value, if that fits an index.
pub open spec fn decimal_index(k: Seq<char>) -> Option<int> {
    match crate::int_utils::decimal_value(k) {
        Some(n) => if 0 <= n <= u64::MAX { Some(n) } else { None },
        None => None,
    }
}

/// The result of assigning the elements `pairs` to an associative array `m`, in order:
/// every element needs a key; one without is reported by its value.
pub open spec fn assign_assoc(
    m: Map<Seq<char>, Seq<char>>,
    pairs: Seq<(Option<Seq<char>>, Seq<char>)>,
) -> Result<Map<Seq<char>, Seq<char>>, Seq<char>>
    decreases pairs.len(),
{
    if pairs.len() == 0 {
        Ok(m)
    } else {
        match pairs[0].0 {
            Some(k) => assign_assoc(m.insert(k, pairs[0].1), pairs.drop_first()),
            None => Err(pairs[0].1),
        }
    }
}

/// The model of a literal: a scalar's text, or an array literal's pairs.
pub enum LiteralView {
    /// A scalar.
    Scalar(Seq<char>),
    /// An array literal's (subscript, element) pairs.
    Array(Seq<(Option<Seq<char>>, Seq<char>)>),
}

impl ShellValueLiteral {
    /// The model of this literal.
    pub open spec fn view(&self) -> LiteralView {
        match self {
            ShellValueLiteral::Scalar(s) => LiteralView::Scalar(s@),
            ShellValueLiteral::Array(a) => LiteralView::Array(literal_pairs(a.0@)),
        }
    }
}

/// The value a variable holding `v` holds after the literal `lit` is assigned to it, or the
/// subscript (or keyless element) that cannot be stored. A scalar goes into element `0` of
/// an array (key `"0"` of an associative one); an array literal replaces the whole value,
/// as an associative array if the variable is one (or is declared as one), else indexed.
pub open spec fn value_after_assign(v: ValueView, lit: LiteralView) -> Result<ValueView, Seq<char>> {
    match lit {
        LiteralView::Scalar(s) => Ok(
            match v {
                ValueView::Indexed(m) => ValueView::Indexed(m.insert(0, s)),
                ValueView::Assoc(m) => ValueView::Assoc(m.insert(seq!['0'], s)),
                ValueView::Unset(ShellValueUnsetType::IndexedArray) => ValueView::Indexed(
                    Map::empty().insert(0, s),
                ),
                ValueView::Unset(ShellValueUnsetType::AssociativeArray) => ValueView::Assoc(
                    Map::empty().insert(seq!['0'], s),
                ),
                _ => ValueView::Str(s),
            },
        ),
        LiteralView::Array(pairs) => if is_assoc(v) {
            match assign_assoc(Map::empty(), pairs) {
                Ok(m) => Ok(ValueView::Assoc(m)),
                Err(k) => Err(k),
            }
        } else {
            match assign_indexed(Map::empty(), 0, pairs) {
                Ok(m) => Ok(ValueView::Indexed(m)),
                Err(k) => Err(k),
            }
        },
    }
}

/// Whether a value is (or is declared as) an associative array.
pub open spec fn is_assoc(v: ValueView) -> bool {
    v is Assoc || v == ValueView::Unset(ShellValueUnsetType::AssociativeArray)
}

/// The value a variable holding `v` holds after `value` is stored at `index`, or `None` when
/// `index` names no element of an indexed array. A string becomes an indexed array whose
/// element 0 is the string.
pub open spec fn value_after_assign_at(v: ValueView, index: Seq<char>, value: Seq<char>) -> Option<ValueView> {
    if is_assoc(v) {
        let m = match v {
            ValueView::Assoc(m) => m,
            _ => Map::empty(),
        };
        Some(ValueView::Assoc(m.insert(index, value)))
    } else {
        let m: Map<u64, Seq<char>> = match v {
            ValueView::Indexed(m) => m,
            ValueView::Str(s) => Map::empty().insert(0, s),
            _ => Map::empty(),
        };
        match decimal_index(index) {
            Some(n) => Some(ValueView::Indexed(m.insert(n as u64, value))),
            None => None,
        }
    }
}

/// The value left after the element at `index` is unset, and whether an element was
/// removed. Unsetting element 0 of a string unsets the string.
pub open spec fn value_after_unset_at(v: ValueView, index: Seq<char>) -> (ValueView, bool) {
    match v {
        ValueView::Indexed(m) => match decimal_index(index) {
            Some(n) => if m.contains_key(n as u64) {
                (ValueView::Indexed(m.remove(n as u64)), true)
            } else {
                (v, false)
            },
            None => (v, false),
        },
        ValueView::Assoc(m) => if m.contains_key(index) {
            (ValueView::Assoc(m.remove(index)), true)
        } else {
            (v, false)
        },
        ValueView::Str(_) => if crate::int_utils::decimal_value(index) == Some(0int) {
            (ValueView::Unset(ShellValueUnsetType::Untyped), true)
        } else {
            (v, false)
        },
        ValueView::Unset(_) => (v, false),
    }
}

/// The model of a variable.
pub struct VarView {
    /// The value.
    pub value: ValueView,
    /// Whether it is exported.
    pub exported: bool,
    /// Whether it is readonly.
    pub readonly: bool,
    /// Whether it is treated as a name reference.
    pub nameref: bool,
}

/// Whether a variable with this model is a live name reference: a nameref whose value is a
/// non-empty string (its target).
pub open spec fn nameref_target(v: VarView) -> Option<Seq<char>> {
    if v.nameref {
        match v.value {
            ValueView::Str(t) => if t.len() > 0 {
                Some(t)
            } else {
                None
            },
            _ => None,
        }
    } else {
        None
    }
}

/// Parses an indexed-array subscript (see [`decimal_index`]).
fn parse_index(index: &str) -> (r: Option<u64>)
    ensures
        match decimal_index(index@) {
            Some(n) => r == Some(n as u64),
            None => r is None,
        },
{
    let limit: u128 = 0xffff_ffff_ffff_ffff;
    match crate::int_utils::parse_decimal(index, limit) {
        Some(n) => {
            proof {
                assert(n <= u64::MAX);
            }
            Some(n as u64)
        },
        None => None,
    }
}

/// Stores the elements of an array literal in a new indexed array.
fn build_indexed(pairs: &Vec<(Option<String>, String)>) -> (r: Result<Vec<(u64, String)>, String>)
    ensures
        match assign_indexed(Map::empty(), 0, literal_pairs(pairs@)) {
            Ok(m) => r matches Ok(v) && indices_distinct(v@) && indexed_map(v@) == m,
            Err(k) => r matches Err(e) && e@ == k,
        },
{
    let ghost all = literal_pairs(pairs@);
    let mut acc: Vec<(u64, String)> = Vec::new();
    let mut next: u128 = 0;
    let mut i: usize = 0;
    proof {
        assert(all.subrange(0, all.len() as int) == all);
    }
    while i < pairs.len()
        invariant
            i <= pairs@.len(),
            all == literal_pairs(pairs@),
            indices_distinct(acc@),
            next <= u64::MAX + 1,
            assign_indexed(Map::empty(), 0, all) == assign_indexed(
                indexed_map(acc@),
                next as int,
                all.subrange(i as int, all.len() as int),
            ),
        decreases pairs@.len() - i,
    {
        let ghost rest = all.subrange(i as int, all.len() as int);
        proof {
            assert(rest[0] == all[i as int]);
            assert(rest.drop_first() == all.subrange(i + 1, all.len() as int));
        }
        let index: u64 = match &pairs[i].0 {
            Some(k) => match parse_index(k.as_str()) {
                Some(n) => n,
                None => {
                    return Err(k.clone());
                },
            },
            None => {
                if next > 0xffff_ffff_ffff_ffff {
                    return Err(String::new());
                }
                next as u64
            },
        };
        let value = pairs[i].1.clone();
        set_indexed(&mut acc, index, value);
        next = index as u128 + 1;
        i = i + 1;
    }
    Ok(acc)
}

/// Stores the elements of an array literal in a new associative array.
fn build_assoc(pairs: &Vec<(Option<String>, String)>) -> (r: Result<Vec<(String, String)>, String>)
    ensures
        match assign_assoc(Map::empty(), literal_pairs(pairs@)) {
            Ok(m) => r matches Ok(v) && keys_distinct(v@) && assoc_map(v@) == m,
            Err(k) => r matches Err(e) && e@ == k,
        },
{
    let ghost all = literal_pairs(pairs@);
    let mut acc: Vec<(String, String)> = Vec::new();
    let mut i: usize = 0;
    proof {
        assert(all.subrange(0, all.len() as int) == all);
    }
    while i < pairs.len()
        invariant
            i <= pairs@.len(),
            all == literal_pairs(pairs@),
            keys_distinct(acc@),
            assign_assoc(Map::empty(), all) == assign_assoc(
                assoc_map(acc@),
                all.subrange(i as int, all.len() as int),
            ),
        decreases pairs@.len() - i,
    {
        let ghost rest = all.subrange(i as int, all.len() as int);
        proof {
            assert(rest[0] == all[i as int]);
            assert(rest.drop_first() == all.subrange(i + 1, all.len() as int));
        }
        match &pairs[i].0 {
            Some(k) => {
                set_assoc(&mut acc, k.clone(), pairs[i].1.clone());
            },
            None => {
                return Err(pairs[i].1.clone());
            },
        }
        i = i + 1;
    }
    Ok(acc)
}

/// A shell variable: a value and its attributes.
#[derive(Debug)]
pub struct ShellVariable {
    value: ShellValue,
    exported: bool,
    readonly: bool,
    nameref: bool,
}

impl ShellVariable {
    /// The model of this variable.
    pub closed spec fn view(&self) -> VarView {
        VarView {
            value: self.value.view(),
            exported: self.exported,
            readonly: self.readonly,
            nameref: self.nameref,
        }
    }

    /// Well-formed: the value's array indices or keys are distinct.
    pub closed spec fn wf(&self) -> bool {
        self.value.wf()
    }

    /// The unset, untyped variable with no attributes.
    pub closed spec fn unset_placeholder() -> Self {
        ShellVariable {
            value: ShellValue::Unset(ShellValueUnsetType::Untyped),
            exported: false,
            readonly: false,
            nameref: false,
        }
    }

    /// The placeholder is unset, untyped and has no attributes.
    pub proof fn lemma_unset_placeholder()
        ensures
            Self::unset_placeholder().wf(),
            Self::unset_placeholder()@ == (VarView {
                value: ValueView::Unset(ShellValueUnsetType::Untyped),
                exported: false,
                readonly: false,
                nameref: false,
            }),
    {
    }

    /// Returns an unset, untyped variable with no attributes.
    pub fn new_unset() -> (v: Self)
        ensures
            v == Self::unset_placeholder(),
            v.wf(),
            v@ == (VarView {
                value: ValueView::Unset(ShellValueUnsetType::Untyped),
                exported: false,
                readonly: false,
                nameref: false,
            }),
    {
        ShellVariable {
            value: ShellValue::Unset(ShellValueUnsetType::Untyped),
            exported: false,
            readonly: false,
            nameref: false,
        }
    }

    /// Returns a new variable with the given value and no attributes.
    pub fn new(value: ShellValue) -> (v: Self)
        requires
            value.wf(),
        ensures
            v.wf(),
            v@ == (VarView { value: value.view(), exported: false, readonly: false, nameref: false }),
    {
        ShellVariable { value, exported: false, readonly: false, nameref: false }
    }

    /// Returns the variable's value.
    pub fn value(&self) -> (r: &ShellValue)
        ensures
            r.view() == self@.value,
            self.wf() ==> r.wf(),
    {
        &self.value
    }

    /// Returns whether the variable is treated as a name reference.
    pub fn is_treated_as_nameref(&self) -> (r: bool)
        ensures
            r == self@.nameref,
    {
        self.nameref
    }

    /// Marks the variable as a name reference.
    pub fn treat_as_nameref(&mut self)
        ensures
            final(self)@ == (VarView { nameref: true, ..old(self)@ }),
            final(self).wf() == old(self).wf(),
    {
        self.nameref = true;
    }

    /// Returns whether the variable is exported.
    pub fn is_exported(&self) -> (r: bool)
        ensures
            r == self@.exported,
    {
        self.exported
    }

    /// The variable, marked as exported.
    pub closed spec fn exported_copy(self) -> Self {
        ShellVariable { exported: true, ..self }
    }

    /// A variable's exported copy differs only in being exported.
    pub proof fn lemma_exported_copy(self)
        ensures
            self.exported_copy()@ == (VarView { exported: true, ..self@ }),
            self.exported_copy().wf() == self.wf(),
    {
    }

    /// Marks the variable as exported.
    pub fn export(&mut self)
        ensures
            *final(self) == old(self).exported_copy(),
            final(self)@ == (VarView { exported: true, ..old(self)@ }),
            final(self).wf() == old(self).wf(),
    {
        self.exported = true;
    }

    /// Returns whether the variable is readonly.
    pub fn is_readonly(&self) -> (r: bool)
        ensures
            r == self@.readonly,
    {
        self.readonly
    }

    /// Marks the variable as readonly.
    pub fn set_readonly(&mut self)
        ensures
            final(self)@ == (VarView { readonly: true, ..old(self)@ }),
            final(self).wf() == old(self).wf(),
    {
        self.readonly = true;
    }

    /// Returns the element of the value that `index` names, if any (see [`element_at`]).
    pub fn get_at(&self, index: &str) -> (r: Option<String>)
        requires
            self.wf(),
        ensures
            match r {
                Some(e) => element_at(self@.value, index@) == Some(e@),
                None => element_at(self@.value, index@) is None,
            },
    {
        match &self.value {
            ShellValue::IndexedArray(v) => {
                let limit: u128 = 0xffff_ffff_ffff_ffff;
                let n = match crate::int_utils::parse_decimal(index, limit) {
                    Some(n) => n,
                    None => {
                        return None;
                    },
                };
                proof {
                    assert(n <= u64::MAX);
                    assert(crate::int_utils::decimal_value(index@) == Some(n as int));
                }
                let n: u64 = n as u64;
                match find_index(v, n) {
                    Some(i) => {
                        proof {
                            lemma_indexed_map_at(v@, i as int);
                        }
                        Some(v[i].1.clone())
                    },
                    None => {
                        proof {
                            lemma_indexed_map_dom(v@, n);
                        }
                        None
                    },
                }
            },
            ShellValue::AssociativeArray(v) => match find_key(v, index) {
                Some(i) => {
                    proof {
                        lemma_assoc_map_at(v@, i as int);
                    }
                    Some(v[i].1.clone())
                },
                None => {
                    proof {
                        lemma_assoc_map_dom(v@, index@);
                    }
                    None
                },
            },
            ShellValue::String(s) => {
                let n = crate::int_utils::parse_decimal(index, 0);
                if n.is_some() {
                    Some(s.clone())
                } else {
                    None
                }
            },
            ShellValue::Unset(_) => None,
        }
    }

    /// Assigns the literal `value` to the variable (see [`value_after_assign`]). A readonly
    /// variable is left alone and reported, as is an array literal with an element that
    /// cannot be stored (reported by its subscript, or by its value if it has no key).
    pub fn assign(&mut self, value: ShellValueLiteral) -> (r: Result<(), Error>)
        requires
            old(self).wf(),
        ensures
            final(self).wf(),
            old(self)@.readonly ==> (r matches Err(e) && e.spec_kind() == ErrorKind::ReadonlyVariable
                && *final(self) == *old(self)),
            !old(self)@.readonly ==> match value_after_assign(old(self)@.value, value.view()) {
                Ok(nv) => r is Ok && final(self)@ == (VarView { value: nv, ..old(self)@ }),
                Err(k) => r matches Err(e) && e.spec_kind() matches ErrorKind::BadArraySubscript(b)
                    && b@ == k && *final(self) == *old(self),
            },
    {
        if self.readonly {
            return Err(Error::new(ErrorKind::ReadonlyVariable));
        }
        match value {
            ShellValueLiteral::Scalar(s) => {
                match &mut self.value {
                    ShellValue::IndexedArray(v) => {
                        set_indexed(v, 0, s);
                    },
                    ShellValue::AssociativeArray(v) => {
                        let key = String::from_str("0");
                        proof {
                            reveal_strlit("0");
                            assert(key@ =~= seq!['0']);
                        }
                        set_assoc(v, key, s);
                    },
                    ShellValue::Unset(ShellValueUnsetType::IndexedArray) => {
                        let mut v: Vec<(u64, String)> = Vec::new();
                        set_indexed(&mut v, 0, s);
                        proof {
                            assert(indexed_map(Seq::empty()) == Map::<u64, Seq<char>>::empty());
                        }
                        self.value = ShellValue::IndexedArray(v);
                    },
                    ShellValue::Unset(ShellValueUnsetType::AssociativeArray) => {
                        let mut v: Vec<(String, String)> = Vec::new();
                        let key = String::from_str("0");
                        proof {
                            reveal_strlit("0");
                            assert(key@ =~= seq!['0']);
                            assert(assoc_map(Seq::empty()) == Map::<Seq<char>, Seq<char>>::empty());
                        }
                        set_assoc(&mut v, key, s);
                        self.value = ShellValue::AssociativeArray(v);
                    },
                    _ => {
                        self.value = ShellValue::String(s);
                    },
                }
                Ok(())
            },
            ShellValueLiteral::Array(a) => {
                let assoc = match &self.value {
                    ShellValue::AssociativeArray(_) => true,
                    ShellValue::Unset(ShellValueUnsetType::AssociativeArray) => true,
                    _ => false,
                };
                if assoc {
                    match build_assoc(&a.0) {
                        Ok(v) => {
                            self.value = ShellValue::AssociativeArray(v);
                            Ok(())
                        },
                        Err(k) => Err(Error::new(ErrorKind::BadArraySubscript(k))),
                    }
                } else {
                    match build_indexed(&a.0) {
                        Ok(v) => {
                            self.value = ShellValue::IndexedArray(v);
                            Ok(())
                        },
                        Err(k) => Err(Error::new(ErrorKind::BadArraySubscript(k))),
                    }
                }
            },
        }
    }

    /// Stores `value` at `index` of the variable's array value (see
    /// [`value_after_assign_at`]). A readonly variable is left alone and reported, as is a
    /// subscript that names no element of an indexed array.
    pub fn assign_at_index(&mut self, index: String, value: String) -> (r: Result<(), Error>)
        requires
            old(self).wf(),
        ensures
            final(self).wf(),
            old(self)@.readonly ==> (r matches Err(e) && e.spec_kind() == ErrorKind::ReadonlyVariable
                && *final(self) == *old(self)),
            !old(self)@.readonly ==> match value_after_assign_at(old(self)@.value, index@, value@) {
                Some(nv) => r is Ok && final(self)@ == (VarView { value: nv, ..old(self)@ }),
                None => r matches Err(e) && e.spec_kind() matches ErrorKind::BadArraySubscript(b)
                    && b@ == index@ && *final(self) == *old(self),
            },
    {
        if self.readonly {
            return Err(Error::new(ErrorKind::ReadonlyVariable));
        }
        let assoc = match &self.value {
            ShellValue::AssociativeArray(_) => true,
            ShellValue::Unset(ShellValueUnsetType::AssociativeArray) => true,
            _ => false,
        };
        if assoc {
            match &mut self.value {
                ShellValue::AssociativeArray(v) => {
                    set_assoc(v, index, value);
                },
                _ => {
                    let mut v: Vec<(String, String)> = Vec::new();
                    proof {
                        assert(assoc_map(Seq::empty()) == Map::<Seq<char>, Seq<char>>::empty());
                    }
                    set_assoc(&mut v, index, value);
                    self.value = ShellValue::AssociativeArray(v);
                },
            }
            return Ok(());
        }
        let n = match parse_index(index.as_str()) {
            Some(n) => n,
            None => {
                return Err(Error::new(ErrorKind::BadArraySubscript(index)));
            },
        };
        match &mut self.value {
            ShellValue::IndexedArray(v) => {
                set_indexed(v, n, value);
            },
            ShellValue::String(s) => {
                let mut v: Vec<(u64, String)> = Vec::new();
                proof {
                    assert(indexed_map(Seq::empty()) == Map::<u64, Seq<char>>::empty());
                }
                set_indexed(&mut v, 0, s.clone());
                set_indexed(&mut v, n, value);
                self.value = ShellValue::IndexedArray(v);
            },
            _ => {
                let mut v: Vec<(u64, String)> = Vec::new();
                proof {
                    assert(indexed_map(Seq::empty()) == Map::<u64, Seq<char>>::empty());
                }
                set_indexed(&mut v, n, value);
                self.value = ShellValue::IndexedArray(v);
            },
        }
        Ok(())
    }

    /// Unsets the element at `index` of the variable's value (see [`value_after_unset_at`]),
    /// returning whether an element was removed. A readonly variable is left alone and
    /// reported.
    pub fn unset_index(&mut self, index: &str) -> (r: Result<bool, Error>)
        requires
            old(self).wf(),
        ensures
            final(self).wf(),
            old(self)@.readonly ==> (r matches Err(e) && e.spec_kind() == ErrorKind::ReadonlyVariable
                && *final(self) == *old(self)),
            !old(self)@.readonly ==> r == Ok::<bool, Error>(value_after_unset_at(old(self)@.value, index@).1)
                && final(self)@ == (VarView {
                    value: value_after_unset_at(old(self)@.value, index@).0,
                    ..old(self)@
                }),
    {
        if self.readonly {
            return Err(Error::new(ErrorKind::ReadonlyVariable));
        }
        match &mut self.value {
            ShellValue::IndexedArray(v) => {
                let n = match parse_index(index) {
                    Some(n) => n,
                    None => {
                        return Ok(false);
                    },
                };
                match find_index(v, n) {
                    Some(i) => {
                        proof {
                            lemma_indexed_map_remove(v@, i as int);
                            lemma_indexed_map_at(v@, i as int);
                        }
                        v.remove(i);
                        Ok(true)
                    },
                    None => {
                        proof {
                            lemma_indexed_map_dom(v@, n);
                        }
                        Ok(false)
                    },
                }
            },
            ShellValue::AssociativeArray(v) => match find_key(v, index) {
                Some(i) => {
                    proof {
                        lemma_assoc_map_remove(v@, i as int);
                        lemma_assoc_map_at(v@, i as int);
                    }
                    v.remove(i);
                    Ok(true)
                },
                None => {
                    proof {
                        lemma_assoc_map_dom(v@, index@);
                    }
                    Ok(false)
                },
            },
            ShellValue::String(_) => {
                if crate::int_utils::parse_decimal(index, 0).is_some() {
                    self.value = ShellValue::Unset(ShellValueUnsetType::Untyped);
                    Ok(true)
                } else {
                    Ok(false)
                }
            },
            ShellValue::Unset(_) => Ok(false),
        }
    }

    /// Returns the string the value reads as (see [`value_text`]).
    pub fn value_string(&self) -> (r: String)
        requires
            self.wf(),
        ensures
            r@ == value_text(self@.value),
    {
        match &self.value {
            ShellValue::String(s) => s.clone(),
            ShellValue::IndexedArray(v) => match find_index(v, 0) {
                Some(i) => {
                    proof {
                        lemma_indexed_map_at(v@, i as int);
                    }
                    v[i].1.clone()
                },
                None => {
                    proof {
                        lemma_indexed_map_dom(v@, 0);
                    }
                    String::new()
                },
            },
            ShellValue::AssociativeArray(v) => match find_key(v, "0") {
                Some(i) => {
                    proof {
                        reveal_strlit("0");
                        assert("0"@ =~= seq!['0']);
                        lemma_assoc_map_at(v@, i as int);
                    }
                    v[i].1.clone()
                },
                None => {
                    proof {
                        reveal_strlit("0");
                        assert("0"@ =~= seq!['0']);
                        lemma_assoc_map_dom(v@, seq!['0']);
                    }
                    String::new()
                },
            },
            ShellValue::Unset(_) => String::new(),
        }
    }
}

} // verus!
