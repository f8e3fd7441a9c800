//! Pieces of file names that completion splits off: the directory part of a word, and a
//! leading `~user/`.

use vstd::prelude::*;
use vstd::string::StrSliceExecFns;

use crate::text;

verus! {

/// The position of the last `c` in `s`, if any.
pub open spec fn last_index_of(s: Seq<char>, c: char) -> Option<int>
    decreases s.len(),
{
    if s.len() == 0 {
        None
    } else if s.last() == c {
        Some(s.len() - 1)
    } else {
        last_index_of(s.drop_last(), c)
    }
}

/// The position of the first `c` in `s`, if any.
pub open spec fn index_of(s: Seq<char>, c: char) -> Option<int>
    decreases s.len(),
{
    if s.len() == 0 {
        None
    } else if s[0] == c {
        Some(0)
    } else {
        match index_of(s.drop_first(), c) {
            Some(i) => Some(i + 1),
            None => None,
        }
    }
}

/// Where a word's directory part ends: just past its last `/`, or at its start.
pub open spec fn dir_len(path: Seq<char>) -> int {
    match last_index_of(path, '/') {
        Some(i) => i + 1,
        None => 0,
    }
}

/// How long a path's leading `~user/` is: through its first `/`, or the whole path if it
/// has none; nothing unless it starts with `~`.
pub open spec fn tilde_len(path: Seq<char>) -> int {
    if path.len() > 0 && path[0] == '~' {
        match index_of(path, '/') {
            Some(i) => i + 1,
            None => path.len() as int,
        }
    } else {
        0
    }
}

/// `path` without one trailing `/`.
pub open spec fn without_trailing_separator(path: Seq<char>) -> Seq<char> {
    if path.len() > 0 && path.last() == '/' {
        path.drop_last()
    } else {
        path
    }
}

proof fn lemma_last_index_of(s: Seq<char>, c: char)
    ensures
        match last_index_of(s, c) {
            Some(i) => 0 <= i < s.len() && s[i] == c && forall|j: int| i < j < s.len() ==> s[j] != c,
            None => forall|j: int| 0 <= j < s.len() ==> s[j] != c,
        },
    decreases s.len(),
{
    if s.len() > 0 && s.last() != c {
        lemma_last_index_of(s.drop_last(), c);
        assert forall|j: int| 0 <= j < s.len() - 1 implies s[j] == s.drop_last()[j] by {}
    }
}

proof fn lemma_index_of(s: Seq<char>, c: char)
    ensures
        match index_of(s, c) {
            Some(i) => 0 <= i < s.len() && s[i] == c && forall|j: int| 0 <= j < i ==> s[j] != c,
            None => forall|j: int| 0 <= j < s.len() ==> s[j] != c,
        },
    decreases s.len(),
{
    if s.len() > 0 && s[0] != c {
        lemma_index_of(s.drop_first(), c);
        assert forall|j: int| 1 <= j < s.len() implies s[j] == s.drop_first()[j - 1] by {}
    }
}

/// Returns the position just past the last `/` of `v`, or 0.
fn find_dir_len(v: &Vec<char>) -> (r: usize)
    ensures
        r == dir_len(v@),
{
    let mut i = v.len();
    while i > 0
        invariant
            i <= v@.len(),
            forall|j: int| i <= j < v@.len() ==> v@[j] != '/',
        decreases i,
    {
        if v[i - 1] == '/' {
            proof {
                lemma_last_index_of(v@, '/');
            }
            return i;
        }
        i = i - 1;
    }
    proof {
        lemma_last_index_of(v@, '/');
    }
    0
}

/// Splits `path` into its directory part, through its last `/`, and the rest.
pub fn split_dir(path: &str) -> (r: (&str, &str))
    ensures
        r.0@ == path@.take(dir_len(path@)),
        r.1@ == path@.skip(dir_len(path@)),
{
    let v = text::chars_of(path);
    let n = find_dir_len(&v);
    proof {
        lemma_last_index_of(path@, '/');
    }
    (path.substring_char(0, n), path.substring_char(n, v.len()))
}

/// Splits `path` into its leading `~user/` (or `~user`, if that's all it is), if it has
/// one, and the rest.
pub fn split_tilde_prefix(path: &str) -> (r: (&str, &str))
    ensures
        r.0@ == path@.take(tilde_len(path@)),
        r.1@ == path@.skip(tilde_len(path@)),
{
    let v = text::chars_of(path);
    let n: usize = if v.len() > 0 && v[0] == '~' {
        match find_first(&v, '/') {
            Some(i) => i + 1,
            None => v.len(),
        }
    } else {
        0
    };
    (path.substring_char(0, n), path.substring_char(n, v.len()))
}

/// Returns the position of the first `c` in `v`, if any.
pub fn find_first(v: &Vec<char>, c: char) -> (r: Option<usize>)
    ensures
        match r {
            Some(i) => i < v@.len() && index_of(v@, c) == Some(i as int),
            None => index_of(v@, c) is None,
        },
{
    proof {
        lemma_index_of(v@, c);
    }
    let mut i: usize = 0;
    while i < v.len()
        invariant
            i <= v@.len(),
            forall|j: int| 0 <= j < i ==> v@[j] != c,
            match index_of(v@, c) {
                Some(k) => 0 <= k < v@.len() && v@[k] == c && forall|j: int| 0 <= j < k ==> v@[j] != c,
                None => forall|j: int| 0 <= j < v@.len() ==> v@[j] != c,
            },
        decreases v@.len() - i,
    {
        if v[i] == c {
            return Some(i);
        }
        i = i + 1;
    }
    None
}

/// Returns `path` without a trailing path separator, if it ends with one.
pub fn strip_path_separator_suffix(path: &str) -> (r: &str)
    ensures
        r@ == without_trailing_separator(path@),
{
    let v = text::chars_of(path);
    if v.len() > 0 && v[v.len() - 1] == '/' {
        path.substring_char(0, v.len() - 1)
    } else {
        path
    }
}

} // verus!
