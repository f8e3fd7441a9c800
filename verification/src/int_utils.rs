//! Parsing integers from text.

use vstd::prelude::*;

use crate::error::{Error, ErrorKind};
use crate::text;

verus! {

/// The value of `c` as a digit in `radix`, if it is one (`0`-`9`, then `a`-`z` or `A`-`Z`).
pub open spec fn digit_value(c: char, radix: int) -> Option<int> {
    let d: int = if '0' <= c && c <= '9' {
        c as int - '0' as int
    } else if 'a' <= c && c <= 'z' {
        c as int - 'a' as int + 10
    } else if 'A' <= c && c <= 'Z' {
        c as int - 'A' as int + 10
    } else {
        radix
    };
    if d < radix {
        Some(d)
    } else {
        None
    }
}

/// The value of the digits `s` in `radix`, most significant first; `None` if `s` is empty
/// or holds a char that isn't a digit.
pub open spec fn digits_value(s: Seq<char>, radix: int) -> Option<int>
    decreases s.len(),
{
    if s.len() == 0 {
        None
    } else {
        match digit_value(s.last(), radix) {
            None => None,
            Some(d) => if s.len() == 1 {
                Some(d)
            } else {
                match digits_value(s.drop_last(), radix) {
                    None => None,
                    Some(v) => Some(v * radix + d),
                }
            },
        }
    }
}

/// The value of `s` as a decimal number without sign.
pub open spec fn decimal_value(s: Seq<char>) -> Option<int> {
    digits_value(s, 10)
}

/// The value of `s` in `radix`, as Rust's `from_str_radix` reads it: an optional `+` (or,
/// if `signed`, `-`) followed by at least one digit.
pub open spec fn radix_value(s: Seq<char>, radix: int, signed: bool) -> Option<int> {
    if s.len() > 0 && s[0] == '+' {
        digits_value(s.drop_first(), radix)
    } else if signed && s.len() > 0 && s[0] == '-' {
        match digits_value(s.drop_first(), radix) {
            Some(v) => Some(-v),
            None => None,
        }
    } else {
        digits_value(s, radix)
    }
}

/// Digit values are non-negative.
pub proof fn lemma_digits_nonneg(s: Seq<char>, radix: int)
    requires
        radix >= 2,
    ensures
        digits_value(s, radix) matches Some(v) ==> v >= 0,
    decreases s.len(),
{
    if s.len() > 1 {
        lemma_digits_nonneg(s.drop_last(), radix);
        if let Some(v) = digits_value(s.drop_last(), radix) {
            assert(v * radix >= 0) by (nonlinear_arith)
                requires
                    v >= 0,
                    radix >= 2,
            ;
        }
    }
}

/// A longer digit string is worth at least as much as its prefix.
proof fn lemma_digits_grow(s: Seq<char>, radix: int)
    requires
        radix >= 2,
        s.len() > 1,
        digits_value(s, radix) is Some,
    ensures
        digits_value(s.drop_last(), radix) is Some,
        digits_value(s.drop_last(), radix)->0 <= digits_value(s, radix)->0,
{
    lemma_digits_nonneg(s.drop_last(), radix);
    let v = digits_value(s.drop_last(), radix)->0;
    assert(v <= v * radix) by (nonlinear_arith)
        requires
            v >= 0,
            radix >= 2,
    ;
}

/// Returns the value of the digit `c` in `radix`.
pub fn digit_of(c: char, radix: u32) -> (r: Option<u32>)
    requires
        2 <= radix <= 36,
    ensures
        match r {
            Some(d) => digit_value(c, radix as int) == Some(d as int),
            None => digit_value(c, radix as int) is None,
        },
{
    let d: u32 = if '0' <= c && c <= '9' {
        (c as u32) - ('0' as u32)
    } else if 'a' <= c && c <= 'z' {
        (c as u32) - ('a' as u32) + 10
    } else if 'A' <= c && c <= 'Z' {
        (c as u32) - ('A' as u32) + 10
    } else {
        radix
    };
    if d < radix {
        Some(d)
    } else {
        None
    }
}

/// Reads the digits `s[from..]` in `radix`, failing unless the value is at most `limit`.
fn digits_at_most(s: &Vec<char>, from: usize, radix: u32, limit: u128) -> (r: Option<u128>)
    requires
        2 <= radix <= 36,
        from <= s@.len(),
    ensures
        match r {
            Some(v) => digits_value(s@.subrange(from as int, s@.len() as int), radix as int)
                == Some(v as int) && v <= limit,
            None => match digits_value(s@.subrange(from as int, s@.len() as int), radix as int) {
                Some(v) => v > limit,
                None => true,
            },
        },
{
    let ghost full = s@.subrange(from as int, s@.len() as int);
    if from == s.len() {
        return None;
    }
    let mut acc: u128 = 0;
    let mut i = from;
    while i < s.len()
        invariant
            2 <= radix <= 36,
            from <= i <= s@.len(),
            full == s@.subrange(from as int, s@.len() as int),
            from < s@.len(),
            acc <= limit,
            i == from ==> acc == 0,
            i > from ==> digits_value(s@.subrange(from as int, i as int), radix as int) == Some(
                acc as int,
            ),
        decreases s@.len() - i,
    {
        let ghost prefix = s@.subrange(from as int, i + 1);
        proof {
            assert(prefix.drop_last() == s@.subrange(from as int, i as int));
            assert(prefix.last() == s@[i as int]);
        }
        match digit_of(s[i], radix) {
            None => {
                proof {
                    lemma_digits_none_extends(s@, from as int, i as int + 1, radix as int);
                }
                return None;
            },
            Some(d) => {
                let next = acc.checked_mul(radix as u128);
                let next = match next {
                    Some(n) => n.checked_add(d as u128),
                    None => None,
                };
                match next {
                    Some(n) if n <= limit => {
                        proof {
                            if i > from {
                                assert(digits_value(prefix, radix as int) == Some(
                                    acc * radix + d,
                                ));
                            } else {
                                assert(prefix.len() == 1);
                            }
                        }
                        acc = n;
                    },
                    _ => {
                        proof {
                            if i > from {
                                assert(digits_value(prefix, radix as int) == Some(
                                    acc * radix + d,
                                ));
                            } else {
                                assert(prefix.len() == 1);
                                assert(digits_value(prefix, radix as int) == Some(d as int));
                            }
                            lemma_digits_exceed_extends(s@, from as int, i as int + 1, radix as int, limit as int);
                        }
                        return None;
                    },
                }
            },
        }
        i = i + 1;
    }
    proof {
        assert(s@.subrange(from as int, i as int) == full);
    }
    Some(acc)
}

/// A digit string with a non-digit in its first `k` chars has no value.
proof fn lemma_digits_none_extends(s: Seq<char>, from: int, k: int, radix: int)
    requires
        0 <= from < k <= s.len(),
        digits_value(s.subrange(from, k), radix) is None,
    ensures
        digits_value(s.subrange(from, s.len() as int), radix) is None,
    decreases s.len() - k,
{
    if k < s.len() {
        let t = s.subrange(from, k + 1);
        assert(t.drop_last() == s.subrange(from, k));
        lemma_digits_none_extends(s, from, k + 1, radix);
    } else {
        assert(s.subrange(from, k) == s.subrange(from, s.len() as int));
    }
}

/// A digit string whose first `k` chars already exceed `limit` exceeds it.
proof fn lemma_digits_exceed_extends(s: Seq<char>, from: int, k: int, radix: int, limit: int)
    requires
        radix >= 2,
        0 <= from < k <= s.len(),
        digits_value(s.subrange(from, k), radix) matches Some(v) && v > limit,
    ensures
        match digits_value(s.subrange(from, s.len() as int), radix) {
            Some(v) => v > limit,
            None => true,
        },
    decreases s.len() - k,
{
    if k < s.len() {
        let t = s.subrange(from, k + 1);
        assert(t.drop_last() == s.subrange(from, k));
        if digits_value(t, radix) is Some {
            lemma_digits_grow(t, radix);
            lemma_digits_exceed_extends(s, from, k + 1, radix, limit);
        } else {
            lemma_digits_none_extends(s, from, k + 1, radix);
        }
    } else {
        assert(s.subrange(from, k) == s.subrange(from, s.len() as int));
    }
}

/// Reads `s` as Rust's `from_str_radix` does for an integer type whose values are
/// `min..=max` (signed if `min < 0`). Returns `None` if it isn't such a value.
pub fn parse_in_range(s: &str, radix: u32, min: i128, max: i128) -> (r: Option<i128>)
    requires
        2 <= radix <= 36,
        i64::MIN <= min <= 0 <= max <= u64::MAX,
    ensures
        match radix_value(s@, radix as int, min < 0) {
            Some(v) => if min <= v <= max {
                r == Some(v as i128)
            } else {
                r is None
            },
            None => r is None,
        },
{
    let chars = text::chars_of(s);
    let signed = min < 0;
    proof {
        assert(chars@.subrange(0, chars@.len() as int) == chars@);
        if chars@.len() > 0 {
            assert(chars@.subrange(1, chars@.len() as int) == s@.drop_first());
        }
    }
    if chars.len() > 0 && chars[0] == '+' {
        match digits_at_most(&chars, 1, radix, max as u128) {
            Some(v) => Some(v as i128),
            None => None,
        }
    } else if signed && chars.len() > 0 && chars[0] == '-' {
        let limit: u128 = (0 - min) as u128;
        match digits_at_most(&chars, 1, radix, limit) {
            Some(v) => Some(0 - (v as i128)),
            None => None,
        }
    } else {
        match digits_at_most(&chars, 0, radix, max as u128) {
            Some(v) => Some(v as i128),
            None => None,
        }
    }
}

/// Reads `s` as a decimal number without sign, failing unless it is at most `limit`.
pub fn parse_decimal(s: &str, limit: u128) -> (r: Option<u128>)
    ensures
        decimal_value(s@) matches Some(v) ==> v >= 0,
        match decimal_value(s@) {
            Some(v) => if v <= limit {
                r == Some(v as u128)
            } else {
                r is None
            },
            None => r is None,
        },
{
    let chars = text::chars_of(s);
    proof {
        assert(chars@.subrange(0, chars@.len() as int) == chars@);
        lemma_digits_nonneg(s@, 10);
    }
    digits_at_most(&chars, 0, 10, limit)
}

/// Integer types that can be parsed from text in a radix.
pub trait ParseIntRadix: Sized {
    /// The least value of the type.
    spec fn min_value() -> int;

    /// The greatest value of the type.
    spec fn max_value() -> int;

    /// The value as a mathematical integer.
    spec fn as_int(&self) -> int;

    /// Parses `s` in `radix`, as Rust's `from_str_radix` for the type does.
    fn from_str_radix(s: &str, radix: u32) -> (r: Option<Self>)
        requires
            2 <= radix <= 36,
        ensures
            match radix_value(s@, radix as int, Self::min_value() < 0) {
                Some(v) => if Self::min_value() <= v <= Self::max_value() {
                    r matches Some(x) && x.as_int() == v
                } else {
                    r is None
                },
                None => r is None,
            },
    ;

    /// The name of the integer type, as Rust writes it (`u8`, `i64`, ...).
    spec fn int_type_text() -> Seq<char>;

    /// Returns the name of the integer type (see [`ParseIntRadix::int_type_text`]).
    fn name_of_type() -> (r: &'static str)
        ensures
            r@ == Self::int_type_text(),
    ;
}

impl ParseIntRadix for u8 {
    open spec fn min_value() -> int {
        0
    }

    open spec fn max_value() -> int {
        u8::MAX as int
    }

    open spec fn as_int(&self) -> int {
        *self as int
    }

    fn from_str_radix(s: &str, radix: u32) -> (r: Option<u8>) {
        match parse_in_range(s, radix, 0, u8::MAX as i128) {
            Some(v) => Some(v as u8),
            None => None,
        }
    }

    open spec fn int_type_text() -> Seq<char> {
        "u8"@
    }

    fn name_of_type() -> (r: &'static str) {
        proof {
            reveal_strlit("u8");
        }
        "u8"
    }
}

impl ParseIntRadix for u16 {
    open spec fn min_value() -> int {
        0
    }

    open spec fn max_value() -> int {
        u16::MAX as int
    }

    open spec fn as_int(&self) -> int {
        *self as int
    }

    fn from_str_radix(s: &str, radix: u32) -> (r: Option<u16>) {
        match parse_in_range(s, radix, 0, u16::MAX as i128) {
            Some(v) => Some(v as u16),
            None => None,
        }
    }

    open spec fn int_type_text() -> Seq<char> {
        "u16"@
    }

    fn name_of_type() -> (r: &'static str) {
        proof {
            reveal_strlit("u16");
        }
        "u16"
    }
}

impl ParseIntRadix for i32 {
    open spec fn min_value() -> int {
        i32::MIN as int
    }

    open spec fn max_value() -> int {
        i32::MAX as int
    }

    open spec fn as_int(&self) -> int {
        *self as int
    }

    fn from_str_radix(s: &str, radix: u32) -> (r: Option<i32>) {
        match parse_in_range(s, radix, i32::MIN as i128, i32::MAX as i128) {
            Some(v) => Some(v as i32),
            None => None,
        }
    }

    open spec fn int_type_text() -> Seq<char> {
        "i32"@
    }

    fn name_of_type() -> (r: &'static str) {
        proof {
            reveal_strlit("i32");
        }
        "i32"
    }
}

impl ParseIntRadix for u32 {
    open spec fn min_value() -> int {
        0
    }

    open spec fn max_value() -> int {
        u32::MAX as int
    }

    open spec fn as_int(&self) -> int {
        *self as int
    }

    fn from_str_radix(s: &str, radix: u32) -> (r: Option<u32>) {
        match parse_in_range(s, radix, 0, u32::MAX as i128) {
            Some(v) => Some(v as u32),
            None => None,
        }
    }

    open spec fn int_type_text() -> Seq<char> {
        "u32"@
    }

    fn name_of_type() -> (r: &'static str) {
        proof {
            reveal_strlit("u32");
        }
        "u32"
    }
}

impl ParseIntRadix for u64 {
    open spec fn min_value() -> int {
        0
    }

    open spec fn max_value() -> int {
        u64::MAX as int
    }

    open spec fn as_int(&self) -> int {
        *self as int
    }

    fn from_str_radix(s: &str, radix: u32) -> (r: Option<u64>) {
        match parse_in_range(s, radix, 0, u64::MAX as i128) {
            Some(v) => Some(v as u64),
            None => None,
        }
    }

    open spec fn int_type_text() -> Seq<char> {
        "u64"@
    }

    fn name_of_type() -> (r: &'static str) {
        proof {
            reveal_strlit("u64");
        }
        "u64"
    }
}

impl ParseIntRadix for i64 {
    open spec fn min_value() -> int {
        i64::MIN as int
    }

    open spec fn max_value() -> int {
        i64::MAX as int
    }

    open spec fn as_int(&self) -> int {
        *self as int
    }

    fn from_str_radix(s: &str, radix: u32) -> (r: Option<i64>) {
        match parse_in_range(s, radix, i64::MIN as i128, i64::MAX as i128) {
            Some(v) => Some(v as i64),
            None => None,
        }
    }

    open spec fn int_type_text() -> Seq<char> {
        "i64"@
    }

    fn name_of_type() -> (r: &'static str) {
        proof {
            reveal_strlit("i64");
        }
        "i64"
    }
}

impl ParseIntRadix for usize {
    open spec fn min_value() -> int {
        0
    }

    open spec fn max_value() -> int {
        usize::MAX as int
    }

    open spec fn as_int(&self) -> int {
        *self as int
    }

    fn from_str_radix(s: &str, radix: u32) -> (r: Option<usize>) {
        match parse_in_range(s, radix, 0, usize::MAX as i128) {
            Some(v) => Some(v as usize),
            None => None,
        }
    }

    open spec fn int_type_text() -> Seq<char> {
        "usize"@
    }

    fn name_of_type() -> (r: &'static str) {
        proof {
            reveal_strlit("usize");
        }
        "usize"
    }
}

/// Parses the given string as an integer in the given radix; fails with an
/// [`ErrorKind::IntParseError`] naming the string, the type and the radix.
pub fn parse<T: ParseIntRadix>(s: &str, radix: u32) -> (r: Result<T, Error>)
    requires
        2 <= radix <= 36,
    ensures
        match radix_value(s@, radix as int, T::min_value() < 0) {
            Some(v) => if T::min_value() <= v <= T::max_value() {
                r matches Ok(x) && x.as_int() == v
            } else {
                r is Err
            },
            None => r is Err,
        },
        r matches Err(e) ==> e.spec_kind() matches ErrorKind::IntParseError { s: s2, radix: rdx, int_type_name: tn }
            && s2@ == s@ && rdx == radix && tn@ == T::int_type_text(),
{
    match T::from_str_radix(s, radix) {
        Some(v) => Ok(v),
        None => Err(Error::new(ErrorKind::IntParseError {
            s: s.to_owned(),
            int_type_name: T::name_of_type(),
            radix,
        })),
    }
}

} // verus!
