//! How a completion spec turns what the shell lists into candidates: which form of the
//! word each action matches, the names an action keeps, the `-W` words kept, the `-X`
//! filter's mode, and the `-P`/`-S` prefix and suffix.

use vstd::prelude::*;

use super::config::CompleteAction;
use super::generate::{extend_matching, matching};
use super::quoting::{dequote_for_matching, unquoted, without_leading_quote};
use super::words::texts;
use crate::sorting::{in_order, sorted_strings};
use crate::text;

verus! {

/// The word as bash matches list-type actions and `-W` words against it: dequoted, with
/// a leading quote taken as the one the word is in.
pub open spec fn dequoted(word: Seq<char>) -> Seq<char> {
    unquoted(without_leading_quote(word))
}

/// Whether an action matches the word as typed (commands, users and groups) rather than
/// dequoted.
pub open spec fn matches_as_typed(action: CompleteAction) -> bool {
    action is Command || action is Group || action is User
}

/// Whether an action lists its names sorted (aliases and functions, which the shell
/// stores unordered and bash lists by name).
pub open spec fn lists_sorted(action: CompleteAction) -> bool {
    action is Alias || action is Function
}

/// Returns the form of `word` that `action` matches names against: as typed for commands,
/// users and groups; dequoted for the other actions.
pub fn action_match_word(action: CompleteAction, word: &str) -> (r: String)
    ensures
        r@ == (if matches_as_typed(action) {
            word@
        } else {
            dequoted(word@)
        }),
{
    match action {
        CompleteAction::Command | CompleteAction::Group | CompleteAction::User => word.to_owned(),
        _ => dequote_for_matching(word),
    }
}

/// The names as values.
pub open spec fn names_view(names: Seq<&str>) -> Seq<Seq<char>> {
    names.map_values(|n: &str| n@)
}

/// Returns the candidates a list-type `action` gives for `word` from the names the shell
/// lists for it: those that start with the word as the action matches it (see
/// [`action_match_word`]), in the order listed, or sorted for aliases and functions.
pub fn action_candidates(action: CompleteAction, word: &str, names: &[&str]) -> (r: Vec<String>)
    ensures
        ({
            let prefix = if matches_as_typed(action) {
                word@
            } else {
                dequoted(word@)
            };
            if lists_sorted(action) {
                in_order(texts(r@)) && texts(r@).to_multiset() == matching(names_view(names@), prefix).to_multiset()
            } else {
                texts(r@) == matching(names_view(names@), prefix)
            }
        }),
{
    let prefix = action_match_word(action, word);
    let mut kept: Vec<String> = Vec::new();
    extend_matching(&mut kept, names, prefix.as_str());
    proof {
        assert(texts(Seq::<String>::empty()) =~= Seq::<Seq<char>>::empty());
        assert(Seq::<Seq<char>>::empty() + matching(names_view(names@), prefix@) =~= matching(names_view(names@), prefix@));
    }
    match action {
        CompleteAction::Alias | CompleteAction::Function => sorted_strings(kept),
        _ => kept,
    }
}

/// The `-W` words that complete `word`: those that start with it dequoted, in order.
pub fn word_list_candidates(words: &[String], word: &str) -> (r: Vec<String>)
    ensures
        texts(r@) == matching(texts(words@), dequoted(word@)),
{
    let prefix = dequote_for_matching(word);
    let mut names: Vec<&str> = Vec::new();
    let mut i: usize = 0;
    while i < words.len()
        invariant
            i <= words@.len(),
            names_view(names@) == texts(words@).take(i as int),
        decreases words@.len() - i,
    {
        let w = words[i].as_str();
        proof {
            assert(names_view(names@.push(w)) =~= names_view(names@).push(words@[i as int]@));
            assert(texts(words@).take(i + 1) =~= texts(words@).take(i as int).push(words@[i as int]@));
        }
        names.push(w);
        i = i + 1;
    }
    proof {
        assert(texts(words@).take(words@.len() as int) =~= texts(words@));
    }
    let mut kept: Vec<String> = Vec::new();
    extend_matching(&mut kept, names.as_slice(), prefix.as_str());
    proof {
        assert(texts(Seq::<String>::empty()) =~= Seq::<Seq<char>>::empty());
        assert(Seq::<Seq<char>>::empty() + matching(texts(words@), prefix@) =~= matching(texts(words@), prefix@));
    }
    kept
}

/// How a `-X` filter pattern is read: a leading `!` inverts the filter, which then keeps
/// the candidates it matches, unless extended globbing is on and the pattern starts `!(`;
/// otherwise the filter removes what it matches. The pattern to match, and whether
/// matches are kept.
pub open spec fn filter_mode(pattern: Seq<char>, extglob: bool) -> (Seq<char>, bool) {
    if pattern.len() > 0 && pattern[0] == '!' && !(extglob && pattern.len() > 1 && pattern[1] == '(') {
        (pattern.skip(1), true)
    } else {
        (pattern, false)
    }
}

/// Returns how the `-X` filter pattern `pattern` is read (see [`filter_mode`]).
pub fn filter_pattern_mode(pattern: &str, extglob: bool) -> (r: (String, bool))
    ensures
        (r.0@, r.1) == filter_mode(pattern@, extglob),
{
    let v = text::chars_of(pattern);
    if v.len() > 0 && text::char_at(&v, 0) == '!' && !(extglob && v.len() > 1 && text::char_at(&v, 1) == '(') {
        let rest = text::string_of(&v, 1, v.len());
        proof {
            assert(rest@ =~= pattern@.skip(1));
        }
        (rest, true)
    } else {
        (pattern.to_owned(), false)
    }
}

/// The candidates with `-P`'s prefix before and `-S`'s suffix after each, when either is
/// given.
pub open spec fn affixed(candidates: Seq<Seq<char>>, prefix: Option<Seq<char>>, suffix: Option<Seq<char>>) -> Seq<Seq<char>> {
    if prefix is None && suffix is None {
        candidates
    } else {
        let p = match prefix {
            Some(p) => p,
            None => Seq::empty(),
        };
        let s = match suffix {
            Some(s) => s,
            None => Seq::empty(),
        };
        candidates.map_values(|c: Seq<char>| p + c + s)
    }
}

/// The text of an optional string.
pub open spec fn opt_text(o: Option<&str>) -> Option<Seq<char>> {
    match o {
        Some(s) => Some(s@),
        None => None,
    }
}

/// Returns the candidates with the spec's prefix and suffix added (see [`affixed`]).
pub fn add_prefix_suffix(candidates: Vec<String>, prefix: Option<&str>, suffix: Option<&str>) -> (r: Vec<String>)
    ensures
        texts(r@) == affixed(texts(candidates@), opt_text(prefix), opt_text(suffix)),
{
    if prefix.is_none() && suffix.is_none() {
        return candidates;
    }
    let p = match prefix {
        Some(p) => p,
        None => "",
    };
    let s = match suffix {
        Some(s) => s,
        None => "",
    };
    proof {
        reveal_strlit("");
    }
    let ghost pv = match opt_text(prefix) {
        Some(p) => p,
        None => Seq::<char>::empty(),
    };
    let ghost sv = match opt_text(suffix) {
        Some(s) => s,
        None => Seq::<char>::empty(),
    };
    assert(p@ == pv && s@ == sv);
    let mut out: Vec<String> = Vec::new();
    let mut i: usize = 0;
    while i < candidates.len()
        invariant
            i <= candidates@.len(),
            p@ == pv,
            s@ == sv,
            texts(out@) == texts(candidates@).take(i as int).map_values(|c: Seq<char>| pv + c + sv),
        decreases candidates@.len() - i,
    {
        let mut t = p.to_owned();
        text::push_str(&mut t, candidates[i].as_str());
        text::push_str(&mut t, s);
        proof {
            assert(texts(out@.push(t)) =~= texts(out@).push(t@));
            assert(texts(candidates@).take(i + 1).map_values(|c: Seq<char>| pv + c + sv) =~= texts(candidates@).take(
                i as int,
            ).map_values(|c: Seq<char>| pv + c + sv).push(pv + candidates@[i as int]@ + sv));
        }
        out.push(t);
        i = i + 1;
    }
    proof {
        assert(texts(candidates@).take(candidates@.len() as int) =~= texts(candidates@));
    }
    out
}

/// The candidates a `-X` filter keeps, given whether its pattern matched each: those whose
/// match is `keep_matches` (the matched ones for an inverted filter, else the others),
/// in order.
pub open spec fn filtered(candidates: Seq<Seq<char>>, matched: Seq<bool>, keep_matches: bool) -> Seq<Seq<char>>
    decreases candidates.len(),
{
    if candidates.len() == 0 {
        Seq::empty()
    } else {
        let n = candidates.len() - 1;
        filtered(candidates.drop_last(), matched.take(n), keep_matches) + if matched[n] == keep_matches {
            seq![candidates.last()]
        } else {
            Seq::empty()
        }
    }
}

/// Applies a `-X` filter to the candidates, given whether its pattern matched each (see
/// [`filtered`]).
pub fn apply_filter(candidates: Vec<String>, matched: &[bool], keep_matches: bool) -> (r: Vec<String>)
    requires
        matched@.len() == candidates@.len(),
    ensures
        texts(r@) == filtered(texts(candidates@), matched@, keep_matches),
{
    let mut out: Vec<String> = Vec::new();
    let mut i: usize = 0;
    proof {
        assert(texts(out@) =~= filtered(texts(candidates@).take(0), matched@.take(0), keep_matches));
    }
    while i < candidates.len()
        invariant
            matched@.len() == candidates@.len(),
            i <= candidates@.len(),
            texts(out@) == filtered(texts(candidates@).take(i as int), matched@.take(i as int), keep_matches),
        decreases candidates@.len() - i,
    {
        let ghost before = texts(out@);
        let ghost cs = texts(candidates@).take(i + 1);
        let ghost ms = matched@.take(i + 1);
        proof {
            assert(cs.drop_last() =~= texts(candidates@).take(i as int));
            assert(ms.take(i as int) =~= matched@.take(i as int));
            assert(cs.last() == candidates@[i as int]@);
            assert(ms[i as int] == matched@[i as int]);
        }
        if matched[i] == keep_matches {
            let c = candidates[i].clone();
            out.push(c);
            proof {
                assert(texts(out@) =~= before + seq![candidates@[i as int]@]);
            }
        } else {
            proof {
                assert(texts(out@) =~= before + Seq::<Seq<char>>::empty());
            }
        }
        i = i + 1;
    }
    proof {
        assert(texts(candidates@).take(candidates@.len() as int) =~= texts(candidates@));
        assert(matched@.take(matched@.len() as int) =~= matched@);
    }
    out
}

} // verus!
