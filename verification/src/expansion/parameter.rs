//! The decisions of parameter expansion (`${x:-word}`, `${x:offset:length}`,
//! `${x@A}`, ...) that stand apart from expanding words: whether a parameter's own value
//! is used, which slice a substring expansion takes, and the text of an assignment.

use vstd::prelude::*;

use super::shape::{ExpansionView, ParameterState};
use super::{Expansion, PieceView, WordField};
use crate::env::names::is_valid_name;
use crate::env::{find_var, valid_variable_name, EnvironmentLookup, ShellEnvironment};
use crate::error::{Error, ErrorKind};
use crate::variables::element_at;
use crate::completion::generate::{extend_matching, lemma_matching_members, matching, starts_with};
use crate::completion::words::texts;
use crate::env::iter::listed_names;
use crate::sorting::{in_order, lemma_sorted_listing_unique, sorted_strings};
use crate::text;
use crate::variables::{is_assoc, ShellValue, ShellValueUnsetType, ShellVariable, ValueView};

verus! {

/// What a `${x-...}`-style test checks: only that the parameter is set (`-`, `=`, `?`,
/// `+`), or also that it is not empty (`:-`, `:=`, `:?`, `:+`).
#[derive(Clone, Copy, Debug, PartialEq, Eq, Structural)]
pub enum ParameterTestType {
    /// Whether the parameter is unset or empty (the forms with a colon).
    UnsetOrNull,
    /// Whether the parameter is unset.
    Unset,
}

/// Whether a parameter in `state` counts as present for the test `test`: a non-empty value
/// always does; an empty one only when the test asks about unset parameters alone.
pub open spec fn value_counts(test: ParameterTestType, state: ParameterState) -> bool {
    state is NonZeroLength || (test is Unset && state is DefinedEmptyString)
}

/// Returns whether a parameter in `state` counts as present for the test `test`: its
/// value is then used (`-`, `=`, `?`), or the alternative is (`+`). A non-empty value
/// always counts; an empty one only when the test asks about unset parameters alone.
pub fn parameter_value_used(test: ParameterTestType, state: ParameterState) -> (r: bool)
    ensures
        r == value_counts(test, state),
{
    match (test, state) {
        (_, ParameterState::NonZeroLength) => true,
        (ParameterTestType::Unset, ParameterState::DefinedEmptyString) => true,
        _ => false,
    }
}

/// The offset a substring expansion starts at, for a value of length `len`: a negative
/// offset counts back from the end for arrays (and, still negative, becomes the end),
/// and becomes 0 for other values; the offset is at most `len`.
pub open spec fn substring_start(len: int, from_array: bool, offset: int) -> int {
    let o = if offset < 0 {
        if from_array {
            if offset + len < 0 {
                len
            } else {
                offset + len
            }
        } else {
            0
        }
    } else {
        offset
    };
    if o < len {
        o
    } else {
        len
    }
}

/// Where a substring expansion ends: the end of the value without a length; else the
/// start plus the length (a negative length has the value's length added to it), at most
/// to the end. The end can come out below 0 (a length still negative after that).
pub open spec fn substring_end(len: int, from_array: bool, offset: int, length: Option<i64>) -> int {
    let start = substring_start(len, from_array, offset);
    match length {
        Some(l) => {
            let l2 = if l < 0 {
                l + len
            } else {
                l as int
            };
            start + if l2 < len - start {
                l2
            } else {
                len - start
            }
        },
        None => len,
    }
}

/// Returns the bounds a substring expansion `${x:offset:length}` takes of a value of
/// length `len` (see [`substring_start`] and [`substring_end`]), as the indices handed to
/// `Expansion::polymorphic_subslice`, both cast to `usize` as Rust casts them (an end
/// below 0 wraps around).
pub fn substring_bounds(len: i64, from_array: bool, offset: i64, length: Option<i64>) -> (r: (usize, usize))
    requires
        len >= 0,
    ensures
        r.0 == (substring_start(len as int, from_array, offset as int) as i64) as usize,
        r.1 == (substring_end(len as int, from_array, offset as int, length) as i64) as usize,
{
    let mut start = offset;
    if start < 0 {
        if from_array {
            start = start + len;
            if start < 0 {
                start = len;
            }
        } else {
            start = 0;
        }
    }
    if start > len {
        start = len;
    }
    let end: i64 = match length {
        Some(l) => {
            let mut l2 = l;
            if l2 < 0 {
                l2 = l2 + len;
            }
            if l2 > len - start {
                l2 = len - start;
            }
            start + l2
        },
        None => len,
    };
    (start as usize, end as usize)
}

/// The attribute flags as `declare` shows them: `-` when there are none.
pub open spec fn flags_or_dash(flags: Seq<char>) -> Seq<char> {
    if flags.len() == 0 {
        seq!['-']
    } else {
        flags
    }
}

/// The text of `${name@A}`: an assignment that recreates the variable. A string is
/// `name=value`; an array is `declare -flags name=value` (without `=value` if the
/// value's text is empty); an unset variable is `declare -flags name`. `flags` are the
/// variable's attribute flags, `value` its value as assignable text.
pub open spec fn assignment_text(name: Seq<char>, value_is: ValueView, value: Seq<char>, flags: Seq<char>) -> Seq<char> {
    match value_is {
        ValueView::Str(_) => name + seq!['='] + value,
        ValueView::Unset(_) => seq!['d', 'e', 'c', 'l', 'a', 'r', 'e', ' ', '-'] + flags_or_dash(flags) + seq![' '] + name,
        _ => seq!['d', 'e', 'c', 'l', 'a', 'r', 'e', ' ', '-'] + flags_or_dash(flags) + seq![' '] + name + if value.len()
            == 0 {
            Seq::empty()
        } else {
            seq!['='] + value
        },
    }
}

fn push_declare(s: &mut String)
    ensures
        final(s)@ == old(s)@ + seq!['d', 'e', 'c', 'l', 'a', 'r', 'e', ' ', '-'],
{
    let ghost start = s@;
    text::push_char(s, 'd');
    text::push_char(s, 'e');
    text::push_char(s, 'c');
    text::push_char(s, 'l');
    text::push_char(s, 'a');
    text::push_char(s, 'r');
    text::push_char(s, 'e');
    text::push_char(s, ' ');
    text::push_char(s, '-');
    assert(s@ =~= start + seq!['d', 'e', 'c', 'l', 'a', 'r', 'e', ' ', '-']);
}

/// Returns the text of `${name@A}` for the variable `var` named `name`, whose value as
/// assignable text is `assignable` and whose attribute flags are `flags` (see
/// [`assignment_text`]).
pub fn to_assignment_logic(name: &str, var: &ShellVariable, assignable: &str, flags: &str) -> (r: String)
    ensures
        r@ == assignment_text(name@, var@.value, assignable@, flags@),
{
    let mut s = String::new();
    match var.value() {
        ShellValue::String(_) => {
            text::push_str(&mut s, name);
            text::push_char(&mut s, '=');
            text::push_str(&mut s, assignable);
            proof {
                assert(s@ =~= name@ + seq!['='] + assignable@);
            }
        },
        other => {
            push_declare(&mut s);
            if flags.is_empty() {
                text::push_char(&mut s, '-');
            } else {
                text::push_str(&mut s, flags);
            }
            text::push_char(&mut s, ' ');
            text::push_str(&mut s, name);
            let ghost head = s@;
            proof {
                assert(head =~= seq!['d', 'e', 'c', 'l', 'a', 'r', 'e', ' ', '-'] + flags_or_dash(flags@) + seq![' '] + name@);
            }
            match other {
                ShellValue::Unset(_) => {},
                _ => {
                    if !assignable.is_empty() {
                        text::push_char(&mut s, '=');
                        text::push_str(&mut s, assignable);
                        proof {
                            assert(s@ =~= head + (seq!['='] + assignable@));
                        }
                    } else {
                        proof {
                            assert(s@ =~= head + Seq::<char>::empty());
                        }
                    }
                },
            }
        },
    }
    s
}

/// The expansion of a parameter whose value is the text `v`: one field of it, unquoted.
pub open spec fn value_expansion(v: Seq<char>) -> ExpansionView {
    ExpansionView { fields: seq![seq![PieceView::Splittable(v)]], concatenate: true, from_array: false, undefined: false }
}

/// The expansion of a parameter that is not set.
pub open spec fn undefined_expansion() -> ExpansionView {
    ExpansionView {
        fields: seq![seq![PieceView::Splittable(Seq::empty())]],
        concatenate: true,
        from_array: false,
        undefined: true,
    }
}

fn text_expansion(v: String) -> (r: Expansion)
    ensures
        r@ == value_expansion(v@),
{
    let mut fields: Vec<WordField> = Vec::new();
    fields.push(WordField::from_text(v));
    let r = Expansion { fields, concatenate: true, from_array: false, undefined: false };
    proof {
        assert(r@.fields =~= seq![seq![PieceView::Splittable(v@)]]);
    }
    r
}

/// The expansion of `$name` in the scopes `scopes`: the text the variable found under the
/// name reads as (a string, or an array's element `0`), or undefined if there is no such
/// variable, it is unset, or it has no element `0`.
pub open spec fn named_expansion(scopes: Seq<crate::env::ScopeView>, name: Seq<char>) -> ExpansionView {
    match find_var(scopes, name, EnvironmentLookup::Anywhere) {
        Some((_, var)) => if var@.value is Unset {
            undefined_expansion()
        } else {
            match element_at(var@.value, seq!['0']) {
                Some(t) => value_expansion(t),
                None => undefined_expansion(),
            }
        },
        None => undefined_expansion(),
    }
}

/// Expands the named parameter `$name` (or `${name}`) in `env` (see
/// [`named_expansion`]); a name that is not a valid variable name is a bad substitution.
pub fn expand_named_parameter(env: &ShellEnvironment, name: &str) -> (r: Result<Expansion, Error>)
    requires
        env.wf(),
    ensures
        !is_valid_name(name@) ==> (r matches Err(e) && (e.spec_kind() matches ErrorKind::BadSubstitution(n) && n@ == name@)),
        is_valid_name(name@) ==> (r matches Ok(x) && x@ == named_expansion(env@, name@)),
{
    if !valid_variable_name(name) {
        return Err(Error::new(ErrorKind::BadSubstitution(name.to_owned())));
    }
    match env.get_by_exact_name_using_policy(name, EnvironmentLookup::Anywhere) {
        Some((_, var)) => {
            if !var.value().is_set() {
                return Ok(Expansion::undefined());
            }
            let zero = "0";
            proof {
                reveal_strlit("0");
                assert(zero@ =~= seq!['0']);
            }
            match var.get_at(zero) {
                Some(t) => Ok(text_expansion(t)),
                None => Ok(Expansion::undefined()),
            }
        },
        None => Ok(Expansion::undefined()),
    }
}

/// The expansion of the positional parameter `$p`: `$0` is the shell's name; `$1` on are
/// the arguments, undefined past the last.
pub open spec fn positional_expansion(shell_name: Seq<char>, args: Seq<String>, p: u32) -> ExpansionView {
    if p == 0 {
        value_expansion(shell_name)
    } else if p - 1 < args.len() {
        value_expansion(args[p - 1]@)
    } else {
        undefined_expansion()
    }
}

/// Expands the positional parameter `$p`, given the shell's name and the positional
/// arguments (see [`positional_expansion`]).
pub fn expand_positional_parameter(shell_name: &str, args: &[String], p: u32) -> (r: Expansion)
    ensures
        r@ == positional_expansion(shell_name@, args@, p),
{
    if p == 0 {
        text_expansion(shell_name.to_owned())
    } else if ((p - 1) as usize) < args.len() {
        text_expansion(args[(p - 1) as usize].clone())
    } else {
        Expansion::undefined()
    }
}

/// Whether `name` in the scopes `scopes` is a variable holding, or declared as, an
/// associative array.
pub open spec fn names_assoc_array(scopes: Seq<crate::env::ScopeView>, name: Seq<char>) -> bool {
    match find_var(scopes, name, EnvironmentLookup::Anywhere) {
        Some((_, var)) => is_assoc(var@.value),
        None => false,
    }
}

/// Returns whether `name` in `env` holds, or is declared as, an associative array: its
/// subscript in `${name[index]}` is then a key, not an arithmetic index (see
/// [`names_assoc_array`]).
pub fn is_set_assoc_array(env: &ShellEnvironment, name: &str) -> (r: bool)
    requires
        env.wf(),
    ensures
        r == names_assoc_array(env@, name@),
{
    match env.get_by_exact_name_using_policy(name, EnvironmentLookup::Anywhere) {
        Some((_, var)) => match var.value() {
            ShellValue::AssociativeArray(_) => true,
            ShellValue::Unset(ShellValueUnsetType::AssociativeArray) => true,
            _ => false,
        },
        None => false,
    }
}

/// The expansion of `${name[index]}` in the scopes `scopes`, with `index` already
/// expanded: the element it names, or undefined if there is no such variable or element.
pub open spec fn indexed_expansion(scopes: Seq<crate::env::ScopeView>, name: Seq<char>, index: Seq<char>) -> ExpansionView {
    match find_var(scopes, name, EnvironmentLookup::Anywhere) {
        Some((_, var)) => match element_at(var@.value, index) {
            Some(t) => value_expansion(t),
            None => undefined_expansion(),
        },
        None => undefined_expansion(),
    }
}

/// Expands `${name[index]}` in `env`, given the index as expanded (see
/// [`indexed_expansion`]).
pub fn expand_indexed_parameter(env: &ShellEnvironment, name: &str, index: &str) -> (r: Expansion)
    requires
        env.wf(),
    ensures
        r@ == indexed_expansion(env@, name@, index@),
{
    match env.get_by_exact_name_using_policy(name, EnvironmentLookup::Anywhere) {
        Some((_, var)) => match var.get_at(index) {
            Some(t) => text_expansion(t),
            None => Expansion::undefined(),
        },
        None => Expansion::undefined(),
    }
}

/// Whether `name` is the name of a variable the scopes `scopes` show and starts with
/// `prefix`.
pub open spec fn shown_with_prefix(scopes: Seq<crate::env::ScopeView>, name: Seq<char>, prefix: Seq<char>) -> bool {
    find_var(scopes, name, EnvironmentLookup::Anywhere) is Some && starts_with(name, prefix)
}

/// Whether `names` lists, sorted and each once, the variables the scopes `scopes` show
/// whose names start with `prefix`.
pub open spec fn lists_names_with_prefix(
    names: Seq<Seq<char>>,
    scopes: Seq<crate::env::ScopeView>,
    prefix: Seq<char>,
) -> bool {
    &&& in_order(names)
    &&& names.no_duplicates()
    &&& forall|n: Seq<char>| #[trigger] names.contains(n) <==> shown_with_prefix(scopes, n, prefix)
}

/// The expansion listing the names `names`, one unquoted field each, as an array does.
pub open spec fn names_expansion(names: Seq<Seq<char>>, concatenate: bool) -> ExpansionView {
    ExpansionView {
        fields: names.map_values(|n: Seq<char>| seq![PieceView::Splittable(n)]),
        concatenate,
        from_array: true,
        undefined: false,
    }
}

/// Expands `${!prefix@}` (or `${!prefix*}`) in `env`: with an empty prefix, one empty
/// field; otherwise the names of the variables shown that start with `prefix`, sorted,
/// one field each (see [`lists_names_with_prefix`]).
pub fn expand_variable_names(env: &ShellEnvironment, prefix: &str, concatenate: bool) -> (r: Expansion)
    requires
        env.wf(),
    ensures
        prefix@.len() == 0 ==> r@ == value_expansion(Seq::empty()),
        prefix@.len() > 0 ==> exists|names: Seq<Seq<char>>| #[trigger] lists_names_with_prefix(names, env@, prefix@)
            && r@ == names_expansion(names, concatenate),
{
    let prefix_chars = text::chars_of(prefix);
    if prefix_chars.len() == 0 {
        let r = text_expansion(String::new());
        proof {
            assert(prefix@ =~= Seq::<char>::empty());
        }
        return r;
    }
    let listed = env.iter();
    let mut names: Vec<&str> = Vec::new();
    let mut i: usize = 0;
    while i < listed.len()
        invariant
            i <= listed@.len(),
            names@.map_values(|n: &str| n@) == listed_names(listed@).take(i as int),
        decreases listed@.len() - i,
    {
        let n: &str = listed[i].0.as_str();
        proof {
            assert(names@.push(n).map_values(|m: &str| m@) =~= names@.map_values(|m: &str| m@).push(n@));
            assert(listed_names(listed@).take(i + 1) =~= listed_names(listed@).take(i as int).push(listed@[i as int].0@));
        }
        names.push(n);
        i = i + 1;
    }
    let ghost ns = listed_names(listed@);
    proof {
        assert(ns.take(listed@.len() as int) =~= ns);
    }
    let mut kept: Vec<String> = Vec::new();
    extend_matching(&mut kept, names.as_slice(), prefix);
    let sorted = sorted_strings(kept);
    let ghost found = texts(sorted@);
    proof {
        broadcast use vstd::seq_lib::group_seq_properties;
        broadcast use vstd::multiset::group_multiset_axioms;
        assert(texts(Seq::<String>::empty()) =~= Seq::<Seq<char>>::empty());
        let m = matching(ns, prefix@);
        assert(texts(kept@) =~= m);
        assert(ns.no_duplicates()) by {
            assert forall|a: int, b: int| 0 <= a < ns.len() && 0 <= b < ns.len() && a != b implies ns[a] != ns[b] by {
                if a < b {
                    assert(listed@[a].0@ != listed@[b].0@);
                } else {
                    assert(listed@[b].0@ != listed@[a].0@);
                }
            }
        }
        lemma_matching_members(ns, prefix@);
        m.lemma_multiset_has_no_duplicates();
        assert forall|x: Seq<char>| found.to_multiset().contains(x) implies found.to_multiset().count(x) == 1 by {
            assert(m.to_multiset().contains(x));
        }
        found.lemma_multiset_has_no_duplicates_conv();
        m.to_multiset_ensures();
        found.to_multiset_ensures();
        assert(found.to_multiset() =~= m.to_multiset());
        assert forall|n: Seq<char>| #[trigger] found.contains(n) <==> shown_with_prefix(env@, n, prefix@) by {
            assert(found.to_multiset().count(n) == m.to_multiset().count(n));
            assert(found.contains(n) <==> m.contains(n));
            if find_var(env@, n, EnvironmentLookup::Anywhere) is Some {
                assert(listed_names(listed@).contains(n));
            }
            if ns.contains(n) {
                let k = choose|k: int| 0 <= k < ns.len() && ns[k] == n;
                assert(ns[k] == listed@[k].0@);
                assert(find_var(env@, listed@[k].0@, EnvironmentLookup::Anywhere) is Some);
            }
        }
        assert(lists_names_with_prefix(found, env@, prefix@));
    }
    let mut fields: Vec<WordField> = Vec::new();
    let mut j: usize = 0;
    while j < sorted.len()
        invariant
            j <= sorted@.len(),
            found == texts(sorted@),
            super::fields_view(fields@) == found.take(j as int).map_values(|n: Seq<char>| seq![PieceView::Splittable(n)]),
        decreases sorted@.len() - j,
    {
        let f = WordField::from_text(sorted[j].clone());
        proof {
            assert(super::fields_view(fields@.push(f)) =~= super::fields_view(fields@).push(f@));
            assert(found.take(j + 1).map_values(|n: Seq<char>| seq![PieceView::Splittable(n)]) =~= found.take(
                j as int,
            ).map_values(|n: Seq<char>| seq![PieceView::Splittable(n)]).push(seq![PieceView::Splittable(found[j as int])]));
        }
        fields.push(f);
        j = j + 1;
    }
    let r = Expansion { fields, concatenate, from_array: true, undefined: false };
    proof {
        assert(found.take(sorted@.len() as int) =~= found);
        assert(r@ == names_expansion(found, concatenate));
    }
    r
}

/// Only one list names the variables shown that start with a prefix, sorted and each once:
/// what `${!prefix@}` expands to is fixed by the environment and the prefix.
pub proof fn law_names_listing_unique(
    a: Seq<Seq<char>>,
    b: Seq<Seq<char>>,
    scopes: Seq<crate::env::ScopeView>,
    prefix: Seq<char>,
)
    requires
        lists_names_with_prefix(a, scopes, prefix),
        lists_names_with_prefix(b, scopes, prefix),
    ensures
        a == b,
{
    assert forall|n: Seq<char>| a.contains(n) <==> b.contains(n) by {
        assert(a.contains(n) <==> shown_with_prefix(scopes, n, prefix));
        assert(b.contains(n) <==> shown_with_prefix(scopes, n, prefix));
    }
    lemma_sorted_listing_unique(a, b);
}

/// Which way a case modification goes.
#[derive(Clone, Copy, Debug, PartialEq, Eq, Structural)]
pub enum CaseChange {
    /// To uppercase (`^`).
    Upper,
    /// To lowercase (`,`).
    Lower,
}

/// The first char of the case-changed form of `c`.
pub open spec fn changed_first(c: char, change: CaseChange) -> char {
    match change {
        CaseChange::Upper => super::uppercase_of(c)[0],
        CaseChange::Lower => super::lowercase_of(c)[0],
    }
}

/// `s` with its first char case-changed (`${x^}`, `${x,}`), if `applicable` (the pattern,
/// if any, matched that char): the char is replaced with the first char of its changed
/// form; an empty `s`, or one the pattern does not apply to, is unchanged.
pub open spec fn first_char_changed(s: Seq<char>, change: CaseChange, applicable: bool) -> Seq<char> {
    if s.len() == 0 || !applicable {
        s
    } else {
        seq![changed_first(s[0], change)] + s.drop_first()
    }
}

/// Returns `s` with its first char case-changed (see [`first_char_changed`]). The rest of
/// `s` is kept from its second byte on, so a changed first char must be a one-byte char.
pub fn change_first_char(s: &str, change: CaseChange, applicable: bool) -> (r: String)
    requires
        s@.len() > 0 && applicable ==> (s@[0] as u32) < 0x80,
    ensures
        r@ == first_char_changed(s@, change, applicable),
{
    let v = text::chars_of(s);
    if v.len() == 0 || !applicable {
        return s.to_owned();
    }
    let mapped = match change {
        CaseChange::Upper => super::to_uppercase(v[0]),
        CaseChange::Lower => super::to_lowercase(v[0]),
    };
    let m = text::chars_of(mapped.as_str());
    let mut r = String::new();
    text::push_char(&mut r, m[0]);
    let rest = text::string_of(&v, 1, v.len());
    text::push_str(&mut r, rest.as_str());
    proof {
        assert(v@.subrange(1, v@.len() as int) =~= s@.drop_first());
        assert(r@ =~= seq![changed_first(s@[0], change)] + s@.drop_first());
    }
    r
}

/// Returns `Ok` if `${x:?message}` (or `${x?message}`) goes on with the parameter's value,
/// which is exactly when its value counts as present (see [`value_counts`]); else the
/// checked-expansion error with the expanded message.
pub fn check_parameter_set(test: ParameterTestType, state: ParameterState, expanded_message: &str) -> (r: Result<(), Error>)
    ensures
        value_counts(test, state) ==> r is Ok,
        !value_counts(test, state) ==> (r matches Err(e) && (e.spec_kind() matches ErrorKind::CheckedExpansionError(m)
            && m@ == expanded_message@)),
{
    if parameter_value_used(test, state) {
        Ok(())
    } else {
        Err(Error::new(ErrorKind::CheckedExpansionError(expanded_message.to_owned())))
    }
}

/// The expansion of `${@:...}`'s parameter with the shell's name (empty if it has none)
/// as its first field, as `$0` is counted in that slice.
pub open spec fn with_shell_name_first(e: ExpansionView, shell_name: Option<Seq<char>>) -> ExpansionView {
    let name = match shell_name {
        Some(n) => n,
        None => Seq::empty(),
    };
    ExpansionView { fields: seq![seq![PieceView::Splittable(name)]] + e.fields, ..e }
}

/// Returns `e` with the shell's name as its first field (see [`with_shell_name_first`]).
pub fn insert_shell_name(e: Expansion, shell_name: Option<&str>) -> (r: Expansion)
    ensures
        r@ == with_shell_name_first(e@, match shell_name {
            Some(n) => Some(n@),
            None => None,
        }),
{
    let name = match shell_name {
        Some(n) => n.to_owned(),
        None => String::new(),
    };
    let mut e = e;
    let ghost before = e@;
    let f = WordField::from_text(name);
    e.fields.insert(0, f);
    proof {
        assert(super::fields_view(e.fields@) =~= seq![f@] + before.fields);
    }
    e
}

/// `s` with every char case-changed (`${x^^}`, `${x,,}` with no pattern, or an empty one).
pub open spec fn all_chars_changed(s: Seq<char>, change: CaseChange) -> Seq<char> {
    match change {
        CaseChange::Upper => super::uppercase_text(s),
        CaseChange::Lower => super::lowercase_text(s),
    }
}

/// Returns `s` with every char case-changed (see [`all_chars_changed`]). With a non-empty
/// pattern only its matches change, which takes the shell's pattern matcher.
pub fn change_all_chars(s: &str, change: CaseChange) -> (r: String)
    ensures
        r@ == all_chars_changed(s@, change),
{
    match change {
        CaseChange::Upper => super::str_to_uppercase(s),
        CaseChange::Lower => super::str_to_lowercase(s),
    }
}

} // verus!
