//! Small text helpers over `str` and `String`, stated over their views as sequences of
//! chars.

use vstd::prelude::*;

verus! {

/// Appends the char `c` to `s` (`String::push`).
#[verifier::external_body]
pub fn push_char(s: &mut String, c: char)
    ensures
        final(s)@ == old(s)@.push(c),
{
    s.push(c);
}

/// Appends the text `t` to `s`.
pub fn push_str(s: &mut String, t: &str)
    ensures
        final(s)@ == old(s)@ + t@,
{
    let ghost start = s@;
    for c in it: t.chars()
        invariant
            it.seq() == t@,
            s@ == start + t@.take(it.index() as int),
    {
        proof {
            assert(t@.take(it.index() + 1) == t@.take(it.index() as int).push(c));
        }
        push_char(s, c);
    }
    proof {
        assert(t@.take(t@.len() as int) == t@);
    }
}

/// Returns the chars of `s`.
pub fn chars_of(s: &str) -> (v: Vec<char>)
    ensures
        v@ == s@,
{
    let mut v: Vec<char> = Vec::new();
    for c in it: s.chars()
        invariant
            it.seq() == s@,
            v@ == s@.take(it.index() as int),
    {
        proof {
            assert(s@.take(it.index() + 1) == s@.take(it.index() as int).push(c));
        }
        v.push(c);
    }
    proof {
        assert(s@.take(s@.len() as int) == s@);
    }
    v
}

/// Returns a string of the chars `v[from..to]`.
pub fn string_of(v: &Vec<char>, from: usize, to: usize) -> (s: String)
    requires
        from <= to <= v@.len(),
    ensures
        s@ == v@.subrange(from as int, to as int),
{
    let mut s = String::new();
    let mut i = from;
    while i < to
        invariant
            from <= i <= to <= v@.len(),
            s@ == v@.subrange(from as int, i as int),
        decreases to - i,
    {
        proof {
            assert(v@.subrange(from as int, i + 1) == v@.subrange(from as int, i as int).push(v@[i as int]));
        }
        push_char(&mut s, v[i]);
        i = i + 1;
    }
    s
}

/// Returns a string of all the chars of `v`.
pub fn string_of_all(v: &Vec<char>) -> (s: String)
    ensures
        s@ == v@,
{
    let s = string_of(v, 0, v.len());
    proof {
        assert(v@.subrange(0, v@.len() as int) == v@);
    }
    s
}

/// Returns the `i`-th char of `v`.
pub fn char_at(v: &Vec<char>, i: usize) -> (c: char)
    requires
        i < v@.len(),
    ensures
        c == v@[i as int],
{
    v[i]
}

/// Whether `c` has Unicode's White_Space property.
pub open spec fn is_white_space(c: char) -> bool {
    ('\u{9}' <= c && c <= '\u{d}') || c == ' ' || c == '\u{85}' || c == '\u{a0}' || c == '\u{1680}'
        || ('\u{2000}' <= c && c <= '\u{200a}') || c == '\u{2028}' || c == '\u{2029}' || c == '\u{202f}'
        || c == '\u{205f}' || c == '\u{3000}'
}

/// Returns whether `c` is whitespace: whether it has Unicode's White_Space property, as
/// `char::is_whitespace` tells.
pub fn is_whitespace(c: char) -> (r: bool)
    ensures
        r == is_white_space(c),
{
    ('\u{9}' <= c && c <= '\u{d}') || c == ' ' || c == '\u{85}' || c == '\u{a0}' || c == '\u{1680}'
        || ('\u{2000}' <= c && c <= '\u{200a}') || c == '\u{2028}' || c == '\u{2029}' || c == '\u{202f}'
        || c == '\u{205f}' || c == '\u{3000}'
}

/// Returns whether `a` and `b` are the same text.
pub fn str_eq(a: &str, b: &str) -> (r: bool)
    ensures
        r == (a@ == b@),
{
    let va = chars_of(a);
    let vb = chars_of(b);
    seq_eq(&va, &vb)
}

/// Returns whether `a` and `b` hold the same chars.
pub fn seq_eq(a: &Vec<char>, b: &Vec<char>) -> (r: bool)
    ensures
        r == (a@ == b@),
{
    if a.len() != b.len() {
        return false;
    }
    let mut i: usize = 0;
    while i < a.len()
        invariant
            a@.len() == b@.len(),
            i <= a@.len(),
            forall|j: int| 0 <= j < i ==> a@[j] == b@[j],
        decreases a@.len() - i,
    {
        if a[i] != b[i] {
            return false;
        }
        i = i + 1;
    }
    proof {
        assert(a@ =~= b@);
    }
    true
}

/// Returns whether `s` contains the char `c`.
pub fn contains_char(s: &Vec<char>, c: char) -> (r: bool)
    ensures
        r == s@.contains(c),
{
    let mut i: usize = 0;
    while i < s.len()
        invariant
            i <= s@.len(),
            forall|j: int| 0 <= j < i ==> s@[j] != c,
        decreases s@.len() - i,
    {
        if s[i] == c {
            proof {
                assert(s@[i as int] == c);
            }
            return true;
        }
        i = i + 1;
    }
    false
}

/// Returns whether the text `s` contains the char `c`.
pub fn str_contains_char(s: &str, c: char) -> (r: bool)
    ensures
        r == s@.contains(c),
{
    let v = chars_of(s);
    contains_char(&v, c)
}

/// The decimal digits of `n`, most significant first.
pub open spec fn decimal_text(n: nat) -> Seq<char>
    decreases n,
{
    if n < 10 {
        seq![digit_char(n)]
    } else {
        decimal_text(n / 10) + seq![digit_char(n % 10)]
    }
}

/// The char of a digit below 10.
pub open spec fn digit_char(d: nat) -> char {
    ('0' as u32 + d) as char
}

/// Returns the decimal digits of `n`.
pub fn decimal_string(n: u64) -> (s: String)
    ensures
        s@ == decimal_text(n as nat),
    decreases n,
{
    let d: u64 = n % 10;
    let c: char = match d {
        0 => '0',
        1 => '1',
        2 => '2',
        3 => '3',
        4 => '4',
        5 => '5',
        6 => '6',
        7 => '7',
        8 => '8',
        _ => '9',
    };
    proof {
        assert(c == digit_char(d as nat));
    }
    if n < 10 {
        let mut s = String::new();
        push_char(&mut s, c);
        s
    } else {
        let mut s = decimal_string(n / 10);
        push_char(&mut s, c);
        s
    }
}

/// The decimal digits of `n`, after a `-` if it is negative.
pub open spec fn signed_decimal_text(n: int) -> Seq<char> {
    if n < 0 {
        seq!['-'] + decimal_text((-n) as nat)
    } else {
        decimal_text(n as nat)
    }
}

/// Returns the decimal digits of `n`, after a `-` if it is negative.
pub fn signed_decimal_string(n: i64) -> (s: String)
    ensures
        s@ == signed_decimal_text(n as int),
{
    if n < 0 {
        let magnitude: u64 = ((-(n + 1)) as u64) + 1;
        let digits = decimal_string(magnitude);
        let mut s = String::new();
        push_char(&mut s, '-');
        push_str(&mut s, digits.as_str());
        s
    } else {
        decimal_string(n as u64)
    }
}

/// The decimal text of `n` is digits, at least one, that read back as `n`.
pub proof fn lemma_decimal_text_reads_back(n: nat)
    ensures
        decimal_text(n).len() > 0,
        forall|i: int| 0 <= i < decimal_text(n).len() ==> '0' <= #[trigger] decimal_text(n)[i] <= '9',
        crate::int_utils::digits_value(decimal_text(n), 10) == Some(n as int),
    decreases n,
{
    if n >= 10 {
        lemma_decimal_text_reads_back(n / 10);
        let t = decimal_text(n);
        assert(t.drop_last() =~= decimal_text(n / 10));
        assert(t.last() == digit_char(n % 10));
    }
}

/// The signed decimal text of `n` has no whitespace at either end, and reads back as `n`.
pub proof fn lemma_signed_decimal_text_reads_back(n: int)
    ensures
        trimmed(signed_decimal_text(n)) == signed_decimal_text(n),
        crate::int_utils::radix_value(signed_decimal_text(n), 10, true) == Some(n),
{
    let m: nat = if n < 0 { (-n) as nat } else { n as nat };
    lemma_decimal_text_reads_back(m);
    let t = signed_decimal_text(n);
    let d = decimal_text(m);
    if n < 0 {
        assert(t.drop_first() =~= d);
        assert(t[0] == '-');
    } else {
        assert(t == d);
        assert('0' <= t[0] <= '9');
    }
    assert(t.len() > 0);
    assert(leading_white_space(t, 0) == 0) by {
        assert(!is_white_space(t[0]));
    }
    assert(trailing_white_space_end(t, t.len() as int, 0) == t.len()) by {
        assert(t[t.len() - 1] == d[d.len() - 1]);
        assert(!is_white_space(t[t.len() - 1]));
    }
    assert(t.subrange(0, t.len() as int) =~= t);
}

/// `s` without whitespace at either end.
pub open spec fn trimmed(s: Seq<char>) -> Seq<char> {
    let start = leading_white_space(s, 0);
    let end = trailing_white_space_end(s, s.len() as int, start);
    s.subrange(start, end)
}

/// Where the leading whitespace of `s` from `i` on ends.
pub open spec fn leading_white_space(s: Seq<char>, i: int) -> int
    decreases s.len() - i,
{
    if 0 <= i < s.len() && is_white_space(s[i]) {
        leading_white_space(s, i + 1)
    } else {
        i
    }
}

/// Where the text of `s` before `end` (and not before `start`) ends, without its trailing
/// whitespace.
pub open spec fn trailing_white_space_end(s: Seq<char>, end: int, start: int) -> int
    decreases end - start,
{
    if start < end && end <= s.len() && is_white_space(s[end - 1]) {
        trailing_white_space_end(s, end - 1, start)
    } else {
        end
    }
}

/// Returns `s` without whitespace at either end (`str::trim`).
pub fn trim(s: &str) -> (r: String)
    ensures
        r@ == trimmed(s@),
{
    let v = chars_of(s);
    let mut start: usize = 0;
    while start < v.len() && is_whitespace(char_at(&v, start))
        invariant
            v@ == s@,
            start <= v@.len(),
            leading_white_space(s@, 0) == leading_white_space(s@, start as int),
        decreases v@.len() - start,
    {
        start = start + 1;
    }
    let mut end: usize = v.len();
    while end > start && is_whitespace(char_at(&v, end - 1))
        invariant
            v@ == s@,
            start <= end <= v@.len(),
            start == leading_white_space(s@, 0),
            trailing_white_space_end(s@, s@.len() as int, start as int) == trailing_white_space_end(s@, end as int, start as int),
        decreases end - start,
    {
        end = end - 1;
    }
    string_of(&v, start, end)
}

} // verus!
