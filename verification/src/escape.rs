//! Backslash-escape expansion and quoting of text as a shell word.

use vstd::prelude::*;
use vstd::utf8::{encode_scalar, encode_utf8, is_scalar};

use crate::error::{Error, ErrorKind};
use crate::int_utils::{digit_of, digit_value, digits_value};
use crate::text;

verus! {

/// Escape expansion mode.
#[derive(Clone, Copy, Debug, PartialEq, Eq, Structural)]
pub enum EscapeExpansionMode {
    /// echo builtin mode.
    EchoBuiltin,
    /// ANSI-C quotes.
    AnsiCQuotes,
}

/// The number of digits in `radix` that start at position `i` of `s`, at most `max`.
pub open spec fn digit_run(s: Seq<char>, i: int, max: nat, radix: int) -> nat
    decreases max,
{
    if max == 0 || i < 0 || i >= s.len() || digit_value(s[i], radix) is None {
        0
    } else {
        1 + digit_run(s, i + 1, (max - 1) as nat, radix)
    }
}

/// The value of the `n` digits in `radix` at position `i` of `s`.
pub open spec fn run_value(s: Seq<char>, i: int, n: int, radix: int) -> int {
    match digits_value(s.subrange(i, i + n), radix) {
        Some(v) => v,
        None => 0,
    }
}

/// The ways an escape expansion can fail.
pub enum EscapeFault {
    /// `\c` followed by more text in ANSI-C quotes.
    ControlChar,
    /// An octal escape whose value does not fit a byte, with its digits.
    OctalOverflow(Seq<char>),
}

/// What the text at position `i` of `s` (which must be in `s`) expands to: its bytes, the
/// number of chars it takes, and whether expansion goes on. A char other than a backslash
/// stands for its UTF-8 bytes; a backslash starts an escape:
/// - `\a \b \e \E \f \n \r \t \v \\` are the usual control bytes and backslash;
/// - in ANSI-C quotes, `\' \" \?` are the quote or question mark;
/// - `\c` ends all output in echo mode; in ANSI-C quotes it is left as is at the end of the
///   text and unsupported elsewhere;
/// - `\0` takes up to three octal digits (none is zero); a value over 255 is a failure;
/// - `\x` takes up to two hex digits, `\u` up to four and `\U` up to eight, for the byte or
///   the char of that value; with no digit, or a value that is no char, the backslash is
///   doubled (and the `x`, `u` or `U` and any digits dropped);
/// - any other escaped char is kept with its backslash, as is a final backslash.
pub open spec fn escape_step(s: Seq<char>, i: int, mode: EscapeExpansionMode) -> Result<
    (Seq<u8>, int, bool),
    EscapeFault,
> {
    let bs: u8 = 0x5c;
    if s[i] != '\\' {
        Ok((encode_scalar(s[i] as u32), 1, true))
    } else if i + 1 >= s.len() {
        Ok((seq![bs], 1, true))
    } else {
        let c = s[i + 1];
        let j = i + 2;
        if c == 'a' {
            Ok((seq![0x07u8], 2, true))
        } else if c == 'b' {
            Ok((seq![0x08u8], 2, true))
        } else if c == 'c' {
            match mode {
                EscapeExpansionMode::EchoBuiltin => Ok((Seq::empty(), 2, false)),
                EscapeExpansionMode::AnsiCQuotes => if j < s.len() {
                    Err(EscapeFault::ControlChar)
                } else {
                    Ok((seq![bs, 0x63u8], 2, true))
                },
            }
        } else if c == 'e' || c == 'E' {
            Ok((seq![0x1bu8], 2, true))
        } else if c == 'f' {
            Ok((seq![0x0cu8], 2, true))
        } else if c == 'n' {
            Ok((seq![0x0au8], 2, true))
        } else if c == 'r' {
            Ok((seq![0x0du8], 2, true))
        } else if c == 't' {
            Ok((seq![0x09u8], 2, true))
        } else if c == 'v' {
            Ok((seq![0x0bu8], 2, true))
        } else if c == '\\' {
            Ok((seq![bs], 2, true))
        } else if mode == EscapeExpansionMode::AnsiCQuotes && (c == '\'' || c == '"' || c == '?') {
            Ok((seq![c as u8], 2, true))
        } else if c == '0' {
            let n = digit_run(s, j, 3, 8) as int;
            let v = if n == 0 { 0 } else { run_value(s, j, n, 8) };
            if v > 255 {
                Err(EscapeFault::OctalOverflow(s.subrange(j, j + n)))
            } else {
                Ok((seq![v as u8], 2 + n, true))
            }
        } else if c == 'x' || c == 'u' || c == 'U' {
            let max: nat = if c == 'x' { 2 } else if c == 'u' { 4 } else { 8 };
            let n = digit_run(s, j, max, 16) as int;
            let v = run_value(s, j, n, 16);
            if n == 0 {
                Ok((seq![bs, bs], 2, true))
            } else if c == 'x' {
                Ok((seq![v as u8], 2 + n, true))
            } else if is_scalar(v as u32) {
                Ok((encode_scalar(v as u32), 2 + n, true))
            } else {
                Ok((seq![bs, bs], 2 + n, true))
            }
        } else {
            Ok((seq![bs] + encode_scalar(c as u32), 2, true))
        }
    }
}

/// What `s` from position `i` on expands to: its bytes, and whether output goes on after
/// it (`false` once `\c` has ended it in echo mode).
pub open spec fn expand_from(s: Seq<char>, i: int, mode: EscapeExpansionMode) -> Result<(Seq<u8>, bool), EscapeFault>
    decreases s.len() - i,
{
    if i >= s.len() || i < 0 {
        Ok((Seq::empty(), true))
    } else {
        match escape_step(s, i, mode) {
            Err(e) => Err(e),
            Ok((b, k, cont)) => if !cont || k < 1 || i + k > s.len() {
                Ok((b, cont))
            } else {
                match expand_from(s, i + k, mode) {
                    Ok((rest, c2)) => Ok((b + rest, c2)),
                    Err(e) => Err(e),
                }
            },
        }
    }
}

/// Whether `e` is the error a fault is reported as.
pub open spec fn is_escape_error(e: Error, f: EscapeFault) -> bool {
    match f {
        EscapeFault::ControlChar => e.spec_kind() == ErrorKind::Unimplemented("control character in ANSI C quotes"),
        EscapeFault::OctalOverflow(digits) => e.spec_kind() matches ErrorKind::IntParseError {
            s,
            int_type_name,
            radix,
        } && s@ == digits && radix == 8,
    }
}

/// Appends the UTF-8 bytes of the scalar value `v`.
fn push_scalar_utf8(out: &mut Vec<u8>, v: u32)
    requires
        is_scalar(v),
    ensures
        final(out)@ == old(out)@ + encode_scalar(v),
{
    if v <= 0x7f {
        out.push((v & 0x7f) as u8);
    } else if v <= 0x7ff {
        out.push(0xC0u8 | ((v >> 6) & 0x1F) as u8);
        out.push(0x80u8 | (v & 0x3F) as u8);
    } else if v <= 0xffff {
        out.push(0xE0u8 | ((v >> 12) & 0x0F) as u8);
        out.push(0x80u8 | ((v >> 6) & 0x3F) as u8);
        out.push(0x80u8 | (v & 0x3F) as u8);
    } else {
        out.push(0xF0u8 | ((v >> 18) & 0x7) as u8);
        out.push(0x80u8 | ((v >> 12) & 0x3F) as u8);
        out.push(0x80u8 | ((v >> 6) & 0x3F) as u8);
        out.push(0x80u8 | (v & 0x3F) as u8);
    }
}

/// Counts the digits in `radix` (at most `max`) at position `j` of `s` and reads their
/// value.
fn read_digits(s: &Vec<char>, j: usize, max: usize, radix: u32) -> (r: (usize, u64))
    requires
        2 <= radix <= 16,
        max <= 8,
        j <= s@.len(),
    ensures
        r.0 == digit_run(s@, j as int, max as nat, radix as int),
        r.0 > 0 ==> run_value(s@, j as int, r.0 as int, radix as int) == r.1,
        r.0 == 0 ==> r.1 == 0,
        r.0 <= max,
        j + r.0 <= s@.len(),
        r.1 < 0x1_0000_0000,
{
    let mut n: usize = 0;
    let mut value: u64 = 0;
    let mut bound: u64 = 1;
    let rem: usize = s.len() - j;
    while n < max && n < rem
        invariant
            rem == s@.len() - j,
            s@.len() <= usize::MAX,
            2 <= radix <= 16,
            max <= 8,
            j <= s@.len(),
            n <= max,
            j + n <= s@.len(),
            digit_run(s@, j as int, max as nat, radix as int) == n + digit_run(
                s@,
                j + n,
                (max - n) as nat,
                radix as int,
            ),
            n > 0 ==> digits_value(s@.subrange(j as int, j + n), radix as int) == Some(value as int),
            value < bound,
            bound <= pow16(n as nat),
            n == 0 ==> value == 0,
        decreases max - n,
    {
        match digit_of(s[j + n], radix) {
            None => {
                proof {
                    lemma_pow16_le(n as nat);
                }
                return (n, value);
            },
            Some(d) => {
                let ghost t = s@.subrange(j as int, j + n + 1);
                proof {
                    assert(t.drop_last() == s@.subrange(j as int, j + n));
                    assert(t.last() == s@[j + n]);
                    assert(digit_value(t.last(), radix as int) == Some(d as int));
                    if n == 0 {
                        assert(digits_value(t, radix as int) == Some(d as int));
                    } else {
                        assert(digits_value(t, radix as int) == Some(value * radix + d));
                    }
                    lemma_pow16_step(n as nat);
                    lemma_pow16_le((n + 1) as nat);
                    assert(value * (radix as u64) + (d as u64) < bound * (radix as u64)) by (nonlinear_arith)
                        requires
                            value < bound,
                            (d as u64) < (radix as u64),
                    ;
                    assert(bound * (radix as u64) <= bound * 16) by (nonlinear_arith)
                        requires
                            radix <= 16,
                    ;
                    assert(bound * 16 <= pow16(n as nat) * 16) by (nonlinear_arith)
                        requires
                            bound <= pow16(n as nat),
                    ;
                }
                let ghost old_value = value;
                value = value * (radix as u64) + (d as u64);
                bound = bound * (radix as u64);
                n = n + 1;
                proof {
                    assert(value == old_value * radix + d);
                    assert(s@.subrange(j as int, j + n) == t);
                    if n == 1 {
                        assert(digits_value(t, radix as int) == Some(d as int));
                    } else {
                        assert(digits_value(t, radix as int) == Some(old_value * radix + d));
                    }
                    assert(digits_value(s@.subrange(j as int, j + n), radix as int) == Some(value as int));
                }
            },
        }
    }
    proof {
        lemma_pow16_le(n as nat);
    }
    (n, value)
}

/// Sixteen to the power `n`.
pub open spec fn pow16(n: nat) -> nat
    decreases n,
{
    if n == 0 {
        1
    } else {
        16 * pow16((n - 1) as nat)
    }
}

proof fn lemma_pow16_step(n: nat)
    ensures
        pow16(n + 1) == pow16(n) * 16,
{
}

proof fn lemma_pow16_le(n: nat)
    requires
        n <= 8,
    ensures
        pow16(n) <= 0x1_0000_0000,
{
    reveal_with_fuel(pow16, 9);
    assert(pow16(8) == 0x1_0000_0000);
    if n < 8 {
        lemma_pow16_mono(n, 8);
    }
}

proof fn lemma_pow16_mono(a: nat, b: nat)
    requires
        a <= b,
    ensures
        pow16(a) <= pow16(b),
    decreases b - a,
{
    if a < b {
        lemma_pow16_mono(a, (b - 1) as nat);
    }
}


/// Prepends bytes to an expansion.
pub open spec fn after_bytes(b: Seq<u8>, r: Result<(Seq<u8>, bool), EscapeFault>) -> Result<(Seq<u8>, bool), EscapeFault> {
    match r {
        Ok((rest, cont)) => Ok((b + rest, cont)),
        Err(e) => Err(e),
    }
}

/// Expands the text at position `i` of `s`, appending its bytes to `out` (see
/// [`escape_step`]); returns the number of chars taken and whether expansion goes on.
fn escape_step_exec(s: &Vec<char>, i: usize, mode: EscapeExpansionMode, out: &mut Vec<u8>) -> (r: Result<
    (usize, bool),
    Error,
>)
    requires
        i < s@.len(),
    ensures
        match escape_step(s@, i as int, mode) {
            Ok((b, k, cont)) => r == Ok::<(usize, bool), Error>((k as usize, cont)) && final(out)@ == old(out)@ + b
                && 1 <= k && i + k <= s@.len(),
            Err(f) => r matches Err(e) && is_escape_error(e, f),
        },
{
    let bs: u8 = 0x5c;
    let len = s.len();
    let c0 = s[i];
    if c0 != '\\' {
        proof {
            lemma_char_is_scalar(c0);
        }
        push_scalar_utf8(out, c0 as u32);
        return Ok((1, true));
    }
    if i + 1 >= len {
        out.push(bs);
        return Ok((1, true));
    }
    let c = s[i + 1];
    let j = i + 2;
    let simple: Option<u8> = if c == 'a' {
        Some(0x07)
    } else if c == 'b' {
        Some(0x08)
    } else if c == 'e' || c == 'E' {
        Some(0x1b)
    } else if c == 'f' {
        Some(0x0c)
    } else if c == 'n' {
        Some(0x0a)
    } else if c == 'r' {
        Some(0x0d)
    } else if c == 't' {
        Some(0x09)
    } else if c == 'v' {
        Some(0x0b)
    } else if c == '\\' {
        Some(bs)
    } else if matches!(mode, EscapeExpansionMode::AnsiCQuotes) && (c == '\'' || c == '"' || c == '?') {
        Some(c as u8)
    } else {
        None
    };
    if c == 'c' {
        match mode {
            EscapeExpansionMode::EchoBuiltin => {
                return Ok((2, false));
            },
            EscapeExpansionMode::AnsiCQuotes => {
                if j < s.len() {
                    return Err(Error::new(ErrorKind::Unimplemented("control character in ANSI C quotes")));
                }
                out.push(bs);
                out.push(0x63);
                return Ok((2, true));
            },
        }
    }
    match simple {
        Some(b) => {
            out.push(b);
            return Ok((2, true));
        },
        None => {},
    }
    if c == '0' {
        let (n, v) = read_digits(s, j, 3, 8);
        if v > 255 {
            let digits = text::string_of(s, j, j + n);
            return Err(Error::new(ErrorKind::IntParseError { s: digits, int_type_name: "u8", radix: 8 }));
        }
        out.push(v as u8);
        return Ok((2 + n, true));
    }
    if c == 'x' || c == 'u' || c == 'U' {
        let max: usize = if c == 'x' { 2 } else if c == 'u' { 4 } else { 8 };
        let (n, v) = read_digits(s, j, max, 16);
        if n == 0 {
            out.push(bs);
            out.push(bs);
            return Ok((2, true));
        }
        if c == 'x' {
            out.push(v as u8);
            return Ok((2 + n, true));
        }
        let v32: u32 = v as u32;
        if v32 <= 0x7f || (0x80 <= v32 && v32 <= 0x7ff) || (0x800 <= v32 && v32 <= 0xffff && !(0xd800 <= v32
            && v32 <= 0xdfff)) || (0x10000 <= v32 && v32 <= 0x10ffff) {
            push_scalar_utf8(out, v32);
        } else {
            out.push(bs);
            out.push(bs);
        }
        return Ok((2 + n, true));
    }
    out.push(bs);
    proof {
        lemma_char_is_scalar(c);
    }
    push_scalar_utf8(out, c as u32);
    Ok((2, true))
}

/// A char's value is a Unicode scalar.
proof fn lemma_char_is_scalar(c: char)
    ensures
        is_scalar(c as u32),
{
}

/// Expands backslash escapes in `s` (see [`expand_from`]), returning the bytes and whether
/// output should go on after them (`false` once `\c` has ended it in echo mode).
pub fn expand_backslash_escapes(s: &str, mode: EscapeExpansionMode) -> (r: Result<(Vec<u8>, bool), Error>)
    ensures
        match expand_from(s@, 0, mode) {
            Ok((b, cont)) => r matches Ok((v, c)) && v@ == b && c == cont,
            Err(f) => r matches Err(e) && is_escape_error(e, f),
        },
{
    let chars = text::chars_of(s);
    let mut result: Vec<u8> = Vec::new();
    let mut i: usize = 0;
    while i < chars.len()
        invariant
            chars@ == s@,
            i <= chars@.len(),
            expand_from(s@, 0, mode) == after_bytes(result@, expand_from(s@, i as int, mode)),
        decreases chars@.len() - i,
    {
        let ghost before = result@;
        match escape_step_exec(&chars, i, mode, &mut result) {
            Ok((k, cont)) => {
                proof {
                    match escape_step(s@, i as int, mode) {
                        Ok((b, kk, cc)) => {
                            assert(result@ == before + b);
                            match expand_from(s@, i + k, mode) {
                                Ok((rest, c2)) => {
                                    assert(before + (b + rest) == result@ + rest);
                                },
                                Err(_) => {},
                            }
                        },
                        Err(_) => {},
                    }
                }
                if !cont {
                    return Ok((result, false));
                }
                i = i + k;
            },
            Err(e) => {
                return Err(e);
            },
        }
    }
    proof {
        assert(result@ + Seq::<u8>::empty() == result@);
    }
    Ok((result, true))
}


/// Quoting mode to use for escaping.
#[derive(Clone, Copy, Debug, PartialEq, Eq, Structural)]
pub enum QuoteMode {
    /// Single-quote.
    SingleQuote,
    /// Double-quote.
    DoubleQuote,
    /// Backslash-escape.
    BackslashEscape,
}

impl Default for QuoteMode {
    fn default() -> (m: Self)
        ensures
            m == QuoteMode::SingleQuote,
    {
        QuoteMode::SingleQuote
    }
}

/// Options influencing how to escape or quote a string.
#[derive(Clone, Copy, Debug)]
pub struct QuoteOptions {
    /// Whether to always escape or quote the input; if false, only input that has chars
    /// that require it is.
    pub always_quote: bool,
    /// Preferred mode for quoting or escaping; input that cannot be expressed otherwise is
    /// quoted in ANSI-C quotes.
    pub preferred_mode: QuoteMode,
    /// Whether to avoid ANSI-C quoting just for the sake of newlines.
    pub avoid_ansi_c_quoting_newline: bool,
}

/// Whether `c` needs to be escaped (or quoted) outside quotes.
pub open spec fn is_special(c: char) -> bool {
    c == '(' || c == ')' || c == '[' || c == ']' || c == '{' || c == '}' || c == '$' || c == '*' || c == '?'
        || c == '|' || c == '&' || c == ';' || c == '<' || c == '>' || c == '`' || c == '\\' || c == '"'
        || c == '!' || c == '^' || c == ',' || c == ' ' || c == '\''
}

/// Whether `c` is an ASCII control char, which only ANSI-C quotes can express.
pub open spec fn is_control(c: char) -> bool {
    (c as u32) < 0x20 || (c as u32) == 0x7f
}

/// Returns whether `c` needs to be escaped (or quoted) outside quotes.
pub fn needs_escaping(c: char) -> (r: bool)
    ensures
        r == is_special(c),
{
    c == '(' || c == ')' || c == '[' || c == ']' || c == '{' || c == '}' || c == '$' || c == '*' || c == '?'
        || c == '|' || c == '&' || c == ';' || c == '<' || c == '>' || c == '`' || c == '\\' || c == '"'
        || c == '!' || c == '^' || c == ',' || c == ' ' || c == '\''
}

/// Returns whether `c` needs ANSI-C quoting.
pub fn needs_ansi_c_quoting(c: char) -> (r: bool)
    ensures
        r == is_control(c),
{
    (c as u32) < 0x20 || (c as u32) == 0x7f
}

/// `s` with each char that needs it escaped by a backslash.
pub open spec fn backslash_escaped(s: Seq<char>) -> Seq<char>
    decreases s.len(),
{
    if s.len() == 0 {
        Seq::empty()
    } else {
        backslash_escaped(s.drop_last()) + if is_special(s.last()) {
            seq!['\\', s.last()]
        } else {
            seq![s.last()]
        }
    }
}

/// Whether `c` is special in double quotes.
pub open spec fn is_double_quote_special(c: char) -> bool {
    c == '$' || c == '`' || c == '"' || c == '\\'
}

/// The inside of `s` double-quoted: each char special in double quotes but not in `leave`
/// escaped by a backslash.
pub open spec fn double_quote_body(s: Seq<char>, leave: Seq<char>) -> Seq<char>
    decreases s.len(),
{
    if s.len() == 0 {
        Seq::empty()
    } else {
        double_quote_body(s.drop_last(), leave) + if is_double_quote_special(s.last()) && !leave.contains(
            s.last(),
        ) {
            seq!['\\', s.last()]
        } else {
            seq![s.last()]
        }
    }
}

/// `s` in double quotes, leaving the chars of `leave` unescaped.
pub open spec fn double_quoted_leaving(s: Seq<char>, leave: Seq<char>) -> Seq<char> {
    seq!['"'] + double_quote_body(s, leave) + seq!['"']
}

/// The octal digit of `d` (below 8).
pub open spec fn octal_char(d: int) -> char {
    ('0' as int + d) as char
}

/// How a char is written in ANSI-C quotes.
pub open spec fn ansi_c_char(c: char) -> Seq<char> {
    if c == '\x07' {
        seq!['\\', 'a']
    } else if c == '\x08' {
        seq!['\\', 'b']
    } else if c == '\x1b' {
        seq!['\\', 'E']
    } else if c == '\x0c' {
        seq!['\\', 'f']
    } else if c == '\n' {
        seq!['\\', 'n']
    } else if c == '\r' {
        seq!['\\', 'r']
    } else if c == '\t' {
        seq!['\\', 't']
    } else if c == '\x0b' {
        seq!['\\', 'v']
    } else if c == '\\' {
        seq!['\\', '\\']
    } else if c == '\'' {
        seq!['\\', '\'']
    } else if is_control(c) {
        let b = c as int;
        seq!['\\', octal_char(b / 64), octal_char((b / 8) % 8), octal_char(b % 8)]
    } else {
        seq![c]
    }
}

/// The inside of `s` in ANSI-C quotes.
pub open spec fn ansi_c_body(s: Seq<char>) -> Seq<char>
    decreases s.len(),
{
    if s.len() == 0 {
        Seq::empty()
    } else {
        ansi_c_body(s.drop_last()) + ansi_c_char(s.last())
    }
}

/// `s` in ANSI-C quotes: `$'...'`.
pub open spec fn ansi_c_quoted(s: Seq<char>) -> Seq<char> {
    seq!['$', '\''] + ansi_c_body(s) + seq!['\'']
}

/// The parts of `s` between the occurrences of `d` (one part if there is none).
pub open spec fn split_on(s: Seq<char>, d: char) -> Seq<Seq<char>>
    decreases s.len(),
{
    if s.len() == 0 {
        seq![Seq::empty()]
    } else {
        let init = split_on(s.drop_last(), d);
        if s.last() == d {
            init.push(Seq::empty())
        } else {
            init.update(init.len() - 1, init.last().push(s.last()))
        }
    }
}

/// A part in single quotes, or nothing for an empty part.
pub open spec fn single_quoted_part(p: Seq<char>) -> Seq<char> {
    if p.len() == 0 {
        Seq::empty()
    } else {
        seq!['\''] + p + seq!['\'']
    }
}

/// The parts, each single-quoted, joined by escaped single quotes.
pub open spec fn join_single_quoted(parts: Seq<Seq<char>>) -> Seq<char>
    decreases parts.len(),
{
    if parts.len() == 0 {
        Seq::empty()
    } else if parts.len() == 1 {
        single_quoted_part(parts[0])
    } else {
        join_single_quoted(parts.drop_last()) + seq!['\\', '\''] + single_quoted_part(parts.last())
    }
}

/// `s` in single quotes: everything but its single quotes is quoted, and those are
/// escaped between the quoted parts; the empty string is `''`.
pub open spec fn single_quoted(s: Seq<char>) -> Seq<char> {
    if s.len() == 0 {
        seq!['\'', '\'']
    } else {
        join_single_quoted(split_on(s, '\''))
    }
}

/// `s` quoted in the mode.
pub open spec fn quoted_in(s: Seq<char>, mode: QuoteMode) -> Seq<char> {
    match mode {
        QuoteMode::BackslashEscape => backslash_escaped(s),
        QuoteMode::SingleQuote => single_quoted(s),
        QuoteMode::DoubleQuote => double_quoted_leaving(s, Seq::empty()),
    }
}

/// `s` quoted by the options: in ANSI-C quotes if it has a control char (other than a
/// newline, if newlines are to be avoided); else in the preferred mode if quoting is forced,
/// or `s` is empty or has a char that needs escaping; else as it is.
pub open spec fn quoted(s: Seq<char>, o: QuoteOptions) -> Seq<char> {
    if exists|i: int| 0 <= i < s.len() && is_control(s[i]) && (!o.avoid_ansi_c_quoting_newline || s[i] != '\n') {
        ansi_c_quoted(s)
    } else if o.always_quote || s.len() == 0 || exists|i: int| 0 <= i < s.len() && is_special(s[i]) {
        quoted_in(s, o.preferred_mode)
    } else {
        s
    }
}

/// Whether `s` needs quoting to stand for itself as a shell word.
pub open spec fn text_needs_quoting(s: Seq<char>) -> bool {
    s.len() == 0 || exists|i: int| 0 <= i < s.len() && (is_special(s[i]) || is_control(s[i]))
}

/// Escapes each char of `s` that needs it with a backslash.
pub fn backslash_escape(s: &str) -> (r: String)
    ensures
        r@ == backslash_escaped(s@),
{
    let mut output = String::new();
    for c in it: s.chars()
        invariant
            it.seq() == s@,
            output@ == backslash_escaped(s@.take(it.index() as int)),
    {
        proof {
            assert(s@.take(it.index() + 1).drop_last() == s@.take(it.index() as int));
        }
        if needs_escaping(c) {
            text::push_char(&mut output, '\\');
        }
        text::push_char(&mut output, c);
        proof {
            assert(output@ == backslash_escaped(s@.take(it.index() + 1)));
        }
    }
    proof {
        assert(s@.take(s@.len() as int) == s@);
    }
    output
}

/// Whether `v` holds `c`.
pub(crate) fn holds_char(v: &[char], c: char) -> (r: bool)
    ensures
        r == v@.contains(c),
{
    let mut i: usize = 0;
    while i < v.len()
        invariant
            i <= v@.len(),
            forall|j: int| 0 <= j < i ==> v@[j] != c,
        decreases v@.len() - i,
    {
        if v[i] == c {
            proof {
                assert(v@[i as int] == c);
            }
            return true;
        }
        i = i + 1;
    }
    false
}

/// Double-quotes `s`, escaping the chars special in double quotes except those in `leave`
/// (which are left to expand).
pub fn double_quote_leaving(s: &str, leave: &[char]) -> (r: String)
    ensures
        r@ == double_quoted_leaving(s@, leave@),
{
    let mut result = String::new();
    text::push_char(&mut result, '"');
    for c in it: s.chars()
        invariant
            it.seq() == s@,
            result@ == seq!['"'] + double_quote_body(s@.take(it.index() as int), leave@),
    {
        proof {
            assert(s@.take(it.index() + 1).drop_last() == s@.take(it.index() as int));
        }
        if (c == '$' || c == '`' || c == '"' || c == '\\') && !holds_char(leave, c) {
            text::push_char(&mut result, '\\');
        }
        text::push_char(&mut result, c);
        proof {
            assert(result@ == seq!['"'] + double_quote_body(s@.take(it.index() + 1), leave@));
        }
    }
    proof {
        assert(s@.take(s@.len() as int) == s@);
    }
    text::push_char(&mut result, '"');
    result
}

/// Double-quotes `s`.
pub fn double_quote(s: &str) -> (r: String)
    ensures
        r@ == double_quoted_leaving(s@, Seq::empty()),
{
    let none: [char; 0] = [];
    let r = double_quote_leaving(s, none.as_slice());
    proof {
        assert(none@ == Seq::<char>::empty());
    }
    r
}

/// Appends the octal digit `d` (below 8).
fn push_octal_digit(out: &mut String, d: u32)
    requires
        d < 8,
    ensures
        final(out)@ == old(out)@.push(octal_char(d as int)),
{
    let c = match d {
        0 => '0',
        1 => '1',
        2 => '2',
        3 => '3',
        4 => '4',
        5 => '5',
        6 => '6',
        _ => '7',
    };
    text::push_char(out, c);
}

/// Appends how `c` is written in ANSI-C quotes.
fn push_ansi_c_char(result: &mut String, c: char)
    ensures
        final(result)@ == old(result)@ + ansi_c_char(c),
{
    let escaped: Option<char> = if c == '\x07' {
        Some('a')
    } else if c == '\x08' {
        Some('b')
    } else if c == '\x1b' {
        Some('E')
    } else if c == '\x0c' {
        Some('f')
    } else if c == '\n' {
        Some('n')
    } else if c == '\r' {
        Some('r')
    } else if c == '\t' {
        Some('t')
    } else if c == '\x0b' {
        Some('v')
    } else if c == '\\' {
        Some('\\')
    } else if c == '\'' {
        Some('\'')
    } else {
        None
    };
    match escaped {
        Some(e) => {
            text::push_char(result, '\\');
            text::push_char(result, e);
            proof {
                assert(final(result)@ =~= old(result)@ + ansi_c_char(c));
            }
        },
        None => {
            if needs_ansi_c_quoting(c) {
                let b = c as u32;
                text::push_char(result, '\\');
                push_octal_digit(result, b / 64);
                push_octal_digit(result, (b / 8) % 8);
                push_octal_digit(result, b % 8);
            } else {
                text::push_char(result, c);
            }
        },
    }
}

/// Quotes `s` in ANSI-C quotes.
pub fn ansi_c_quote(s: &str) -> (r: String)
    ensures
        r@ == ansi_c_quoted(s@),
{
    let mut result = String::new();
    text::push_char(&mut result, '$');
    text::push_char(&mut result, '\'');
    for c in it: s.chars()
        invariant
            it.seq() == s@,
            result@ == seq!['$', '\''] + ansi_c_body(s@.take(it.index() as int)),
    {
        proof {
            assert(s@.take(it.index() + 1).drop_last() == s@.take(it.index() as int));
        }
        push_ansi_c_char(&mut result, c);
        proof {
            assert(result@ == seq!['$', '\''] + ansi_c_body(s@.take(it.index() + 1)));
        }
    }
    proof {
        assert(s@.take(s@.len() as int) == s@);
    }
    text::push_char(&mut result, '\'');
    result
}

/// Single-quotes `s` (see [`single_quoted`]).
pub fn single_quote(s: &str) -> (r: String)
    ensures
        r@ == single_quoted(s@),
{
    if s.is_empty() {
        let mut r = String::new();
        text::push_char(&mut r, '\'');
        text::push_char(&mut r, '\'');
        return r;
    }
    let mut result = String::new();
    let mut current = String::new();
    let mut first = true;
    proof {
        assert(s@.take(0) == Seq::<char>::empty());
    }
    for c in it: s.chars()
        invariant
            it.seq() == s@,
            split_on(s@.take(it.index() as int), '\'').len() >= 1,
            first == (split_on(s@.take(it.index() as int), '\'').len() == 1),
            current@ == split_on(s@.take(it.index() as int), '\'').last(),
            result@ == if first {
                Seq::empty()
            } else {
                join_single_quoted(split_on(s@.take(it.index() as int), '\'').drop_last()) + seq!['\\', '\'']
            },
    {
        let ghost t = s@.take(it.index() as int);
        let ghost parts = split_on(t, '\'');
        proof {
            assert(s@.take(it.index() + 1).drop_last() == t);
            assert(s@.take(it.index() + 1).last() == c);
        }
        if c == '\'' {
            if !current.as_str().is_empty() {
                text::push_char(&mut result, '\'');
                text::push_str(&mut result, current.as_str());
                text::push_char(&mut result, '\'');
            }
            text::push_char(&mut result, '\\');
            text::push_char(&mut result, '\'');
            current = String::new();
            first = false;
            proof {
                let np = split_on(s@.take(it.index() + 1), '\'');
                assert(np == parts.push(Seq::empty()));
                assert(np.drop_last() == parts);
                if parts.len() == 1 {
                    assert(join_single_quoted(parts) == single_quoted_part(parts[0]));
                } else {
                    assert(join_single_quoted(parts) == join_single_quoted(parts.drop_last()) + seq!['\\', '\'']
                        + single_quoted_part(parts.last()));
                }
            }
        } else {
            text::push_char(&mut current, c);
            proof {
                let np = split_on(s@.take(it.index() + 1), '\'');
                assert(np.drop_last() == parts.drop_last());
            }
        }
    }
    proof {
        assert(s@.take(s@.len() as int) == s@);
        let parts = split_on(s@, '\'');
        if parts.len() > 1 {
            assert(join_single_quoted(parts) == join_single_quoted(parts.drop_last()) + seq!['\\', '\'']
                + single_quoted_part(parts.last()));
        }
    }
    if !current.as_str().is_empty() {
        text::push_char(&mut result, '\'');
        text::push_str(&mut result, current.as_str());
        text::push_char(&mut result, '\'');
    }
    result
}



/// Whether `s` has a char that needs ANSI-C quoting under the options.
fn has_ansi_c_char(s: &str, avoid_newline: bool) -> (r: bool)
    ensures
        r == exists|i: int| 0 <= i < s@.len() && is_control(s@[i]) && (!avoid_newline || s@[i] != '\n'),
{
    for c in it: s.chars()
        invariant
            it.seq() == s@,
            forall|j: int| 0 <= j < it.index() ==> !(is_control(s@[j]) && (!avoid_newline || s@[j] != '\n')),
    {
        if needs_ansi_c_quoting(c) && (!avoid_newline || c != '\n') {
            proof {
                assert(s@[it.index() as int] == c);
            }
            return true;
        }
    }
    false
}

/// Whether `s` has a char that needs escaping outside quotes.
fn has_special_char(s: &str) -> (r: bool)
    ensures
        r == exists|i: int| 0 <= i < s@.len() && is_special(s@[i]),
{
    for c in it: s.chars()
        invariant
            it.seq() == s@,
            forall|j: int| 0 <= j < it.index() ==> !is_special(s@[j]),
    {
        if needs_escaping(c) {
            proof {
                assert(s@[it.index() as int] == c);
            }
            return true;
        }
    }
    false
}

/// Quotes `s` as the options say (see [`quoted`]).
pub fn quote(s: &str, options: &QuoteOptions) -> (r: String)
    ensures
        r@ == quoted(s@, *options),
{
    if has_ansi_c_char(s, options.avoid_ansi_c_quoting_newline) {
        return ansi_c_quote(s);
    }
    if !(options.always_quote || s.is_empty() || has_special_char(s)) {
        return s.to_owned();
    }
    match options.preferred_mode {
        QuoteMode::BackslashEscape => backslash_escape(s),
        QuoteMode::SingleQuote => single_quote(s),
        QuoteMode::DoubleQuote => double_quote(s),
    }
}

/// Quotes `s` in `mode`, whether it needs it or not (ANSI-C quotes for control chars).
pub fn force_quote(s: &str, mode: QuoteMode) -> (r: String)
    ensures
        r@ == quoted(s@, QuoteOptions { always_quote: true, preferred_mode: mode, avoid_ansi_c_quoting_newline: false }),
{
    let options = QuoteOptions { always_quote: true, preferred_mode: mode, avoid_ansi_c_quoting_newline: false };
    quote(s, &options)
}

/// Quotes `s` in `mode` only if it needs it (ANSI-C quotes for control chars).
pub fn quote_if_needed(s: &str, mode: QuoteMode) -> (r: String)
    ensures
        r@ == quoted(s@, QuoteOptions { always_quote: false, preferred_mode: mode, avoid_ansi_c_quoting_newline: false }),
{
    let options = QuoteOptions { always_quote: false, preferred_mode: mode, avoid_ansi_c_quoting_newline: false };
    quote(s, &options)
}

/// Returns whether `s` needs quoting to stand for itself as a shell word: if it is empty
/// or has a char that needs escaping or ANSI-C quoting.
pub fn needs_quoting(s: &str) -> (r: bool)
    ensures
        r == text_needs_quoting(s@),
{
    if s.is_empty() {
        return true;
    }
    for c in it: s.chars()
        invariant
            it.seq() == s@,
            forall|j: int| 0 <= j < it.index() ==> !(is_special(s@[j]) || is_control(s@[j])),
    {
        if needs_escaping(c) || needs_ansi_c_quoting(c) {
            proof {
                assert(s@[it.index() as int] == c);
            }
            return true;
        }
    }
    false
}

/// Quoting a string that needs none leaves it as it is.
pub proof fn law_quote_if_needed_keeps_plain_text(s: Seq<char>, mode: QuoteMode)
    requires
        !text_needs_quoting(s),
    ensures
        quoted(s, QuoteOptions { always_quote: false, preferred_mode: mode, avoid_ansi_c_quoting_newline: false })
            == s,
{
}

/// From position `i` of the prefix `p` of `s = p + "\c" + q`, echo-mode expansion gives the
/// UTF-8 bytes of the rest of `p`, and output stops.
proof fn lemma_echo_stops_at_c(p: Seq<char>, q: Seq<char>, i: int)
    requires
        0 <= i <= p.len(),
        !p.contains('\\'),
    ensures
        expand_from(p + seq!['\\', 'c'] + q, i, EscapeExpansionMode::EchoBuiltin) == Ok::<(Seq<u8>, bool), EscapeFault>(
            (encode_utf8(p.skip(i)), false),
        ),
    decreases p.len() - i,
{
    let s = p + seq!['\\', 'c'] + q;
    if i == p.len() {
        assert(s[i] == '\\' && s[i + 1] == 'c');
        assert(p.skip(i) =~= Seq::<char>::empty());
    } else {
        assert(s[i] == p[i]);
        assert(p[i] != '\\') by {
            if p[i] == '\\' {
                assert(p.contains('\\'));
            }
        }
        lemma_echo_stops_at_c(p, q, i + 1);
        assert(p.skip(i).drop_first() =~= p.skip(i + 1));
        assert(p.skip(i)[0] == p[i]);
    }
}

/// In echo mode, `\c` ends the output: text with no backslash before a `\c` expands to its
/// own UTF-8 bytes, whatever follows, and output does not go on.
pub proof fn law_echo_c_ends_output(p: Seq<char>, q: Seq<char>)
    requires
        !p.contains('\\'),
    ensures
        expand_from(p + seq!['\\', 'c'] + q, 0, EscapeExpansionMode::EchoBuiltin) == Ok::<(Seq<u8>, bool), EscapeFault>(
            (encode_utf8(p), false),
        ),
{
    lemma_echo_stops_at_c(p, q, 0);
    assert(p.skip(0) =~= p);
}

/// Whether `c` is written in ANSI-C quotes as `\0` and two octal digits: a control char
/// other than those with a letter escape (`\a \b \E \f \n \r \t \v`).
pub open spec fn octal_escaped(c: char) -> bool {
    is_control(c) && !(c == '\x07' || c == '\x08' || c == '\x1b' || c == '\x0c' || c == '\n' || c == '\r'
        || c == '\t' || c == '\x0b')
}

/// Whether `c` is an octal digit.
pub open spec fn is_octal_digit(c: char) -> bool {
    '0' <= c && c <= '7'
}

/// A char below 0x80 is its own one UTF-8 byte.
proof fn lemma_ascii_byte(v: u32)
    requires
        v <= 0x7f,
    ensures
        encode_scalar(v) == seq![v as u8],
{
    assert((v & 0x7f) == v) by (bit_vector)
        requires
            v <= 0x7f,
    ;
}

/// Quoting text made of two parts quotes each part.
proof fn lemma_ansi_c_body_concat(a: Seq<char>, b: Seq<char>)
    ensures
        ansi_c_body(a + b) == ansi_c_body(a) + ansi_c_body(b),
    decreases b.len(),
{
    if b.len() == 0 {
        assert(a + b =~= a);
        assert(ansi_c_body(a) + ansi_c_body(b) =~= ansi_c_body(a));
    } else {
        assert((a + b).drop_last() =~= a + b.drop_last());
        assert((a + b).last() == b.last());
        lemma_ansi_c_body_concat(a, b.drop_last());
        assert(ansi_c_body(a) + ansi_c_body(b.drop_last()) + ansi_c_char(b.last()) =~= ansi_c_body(a) + (
        ansi_c_body(b.drop_last()) + ansi_c_char(b.last())));
    }
}

/// The quoted form of text starts with its first char's quoted form.
proof fn lemma_ansi_c_body_first(x: Seq<char>)
    requires
        x.len() > 0,
    ensures
        ansi_c_body(x) == ansi_c_char(x[0]) + ansi_c_body(x.drop_first()),
{
    assert(x =~= seq![x[0]] + x.drop_first());
    lemma_ansi_c_body_concat(seq![x[0]], x.drop_first());
    assert(seq![x[0]].drop_last() =~= Seq::<char>::empty());
    reveal_with_fuel(ansi_c_body, 2);
    assert(ansi_c_body(seq![x[0]]) =~= ansi_c_char(x[0]));
}

/// A control char written in octal expands back to itself, given that no octal digit
/// follows its escape.
proof fn lemma_octal_step(big: Seq<char>, p: int, c: char)
    requires
        octal_escaped(c),
        c != '\x7f',
        0 <= p,
        p + 4 <= big.len(),
        forall|k: int| 0 <= k < 4 ==> big[p + k] == #[trigger] ansi_c_char(c)[k],
        p + 4 < big.len() ==> digit_value(big[p + 4], 8) is None,
    ensures
        escape_step(big, p, EscapeExpansionMode::AnsiCQuotes) == Ok::<(Seq<u8>, int, bool), EscapeFault>(
            (encode_scalar(c as u32), 4, true),
        ),
{
    let b = c as int;
    let e = ansi_c_char(c);
    assert(b < 0x20);
    assert(e == seq!['\\', octal_char(b / 64), octal_char((b / 8) % 8), octal_char(b % 8)]);
    let d1 = (b / 8) % 8;
    let d2 = b % 8;
    assert(big[p] == '\\');
    assert(big[p + 1] == octal_char(0));
    assert(octal_char(0) == '0');
    assert(big[p + 2] == octal_char(d1));
    assert(big[p + 3] == octal_char(d2));
    assert(digit_value(octal_char(d1), 8) == Some(d1));
    assert(digit_value(octal_char(d2), 8) == Some(d2));
    reveal_with_fuel(digit_run, 4);
    assert(digit_run(big, p + 2, 3, 8) == 2);
    let t = big.subrange(p + 2, p + 4);
    assert(t.drop_last() =~= seq![octal_char(d1)]);
    assert(t.last() == octal_char(d2));
    reveal_with_fuel(digits_value, 3);
    assert(digits_value(t, 8) == Some(d1 * 8 + d2));
    assert(d1 * 8 + d2 == b);
    lemma_ascii_byte(c as u32);
}

/// Any other char's ANSI-C form expands back to the char.
proof fn lemma_plain_step(big: Seq<char>, p: int, c: char)
    requires
        !octal_escaped(c),
        c != '\x7f',
        0 <= p,
        p + ansi_c_char(c).len() <= big.len(),
        forall|k: int| 0 <= k < ansi_c_char(c).len() ==> big[p + k] == #[trigger] ansi_c_char(c)[k],
    ensures
        escape_step(big, p, EscapeExpansionMode::AnsiCQuotes) == Ok::<(Seq<u8>, int, bool), EscapeFault>(
            (encode_scalar(c as u32), ansi_c_char(c).len() as int, true),
        ),
{
    let e = ansi_c_char(c);
    if is_control(c) || c == '\\' || c == '\'' {
        lemma_ascii_byte(c as u32);
        assert(big[p] == e[0]);
        assert(big[p + 1] == e[1]);
    } else {
        assert(e == seq![c]);
        assert(big[p + 0] == ansi_c_char(c)[0]);
        assert(big[p] == c);
    }
}

/// Expanding the ANSI-C quoted form of `s` from where its `j`-th char's form starts gives
/// the UTF-8 bytes of `s` from that char on.
#[verifier::spinoff_prover]
#[verifier::rlimit(40)]
proof fn lemma_ansi_c_round_trip_from(s: Seq<char>, j: int)
    requires
        0 <= j <= s.len(),
        !s.contains('\x7f'),
        forall|i: int| 0 <= i < s.len() - 1 && #[trigger] octal_escaped(s[i]) ==> !is_octal_digit(s[i + 1]),
    ensures
        expand_from(ansi_c_body(s), ansi_c_body(s.take(j)).len() as int, EscapeExpansionMode::AnsiCQuotes) == Ok::<
            (Seq<u8>, bool),
            EscapeFault,
        >((encode_utf8(s.skip(j)), true)),
    decreases s.len() - j,
{
    let big = ansi_c_body(s);
    let p = ansi_c_body(s.take(j)).len() as int;
    if j == s.len() {
        assert(s.take(j) =~= s);
        assert(s.skip(j) =~= Seq::<char>::empty());
    } else {
        let c = s[j];
        let e = ansi_c_char(c);
        let pre = ansi_c_body(s.take(j));
        let post = ansi_c_body(s.skip(j + 1));
        assert(s =~= s.take(j) + s.skip(j));
        lemma_ansi_c_body_concat(s.take(j), s.skip(j));
        lemma_ansi_c_body_first(s.skip(j));
        assert(s.skip(j)[0] == c);
        assert(s.skip(j).drop_first() =~= s.skip(j + 1));
        assert(big =~= pre + e + post);
        assert(s.take(j + 1).drop_last() =~= s.take(j));
        assert(s.take(j + 1).last() == c);
        assert(ansi_c_body(s.take(j + 1)).len() == p + e.len());
        lemma_ansi_c_round_trip_from(s, j + 1);
        assert forall|k: int| 0 <= k < e.len() implies big[p + k] == #[trigger] e[k] by {
            assert(big[p + k] == (pre + e + post)[p + k]);
        }
        assert(c != '\x7f') by {
            if c == '\x7f' {
                assert(s.contains('\x7f'));
            }
        }
        if octal_escaped(c) {
            if j + 1 < s.len() {
                lemma_ansi_c_body_first(s.skip(j + 1));
                assert(s.skip(j + 1)[0] == s[j + 1]);
                assert(post[0] == ansi_c_char(s[j + 1])[0]);
                assert(big[p + 4] == post[0]);
                assert(!is_octal_digit(s[j + 1]));
            } else {
                assert(s.skip(j + 1) =~= Seq::<char>::empty());
                assert(post =~= Seq::<char>::empty());
            }
            lemma_octal_step(big, p, c);
        } else {
            lemma_plain_step(big, p, c);
        }
        assert(encode_utf8(s.skip(j)) == encode_scalar(c as u32) + encode_utf8(s.skip(j + 1)));
    }
}

/// ANSI-C quoting is undone by ANSI-C escape expansion: expanding the inside of `$'...'`
/// as written for `s` gives back exactly the UTF-8 bytes of `s` (a tab, written `\t`, comes
/// back as a tab), for every `s` holding no DEL and no control char written in octal just
/// before an octal digit (the expansion would read that digit as part of the escape).
pub proof fn law_ansi_c_quoting_round_trips(s: Seq<char>)
    requires
        !s.contains('\x7f'),
        forall|i: int| 0 <= i < s.len() - 1 && #[trigger] octal_escaped(s[i]) ==> !is_octal_digit(s[i + 1]),
    ensures
        expand_from(ansi_c_body(s), 0, EscapeExpansionMode::AnsiCQuotes) == Ok::<(Seq<u8>, bool), EscapeFault>(
            (encode_utf8(s), true),
        ),
{
    lemma_ansi_c_round_trip_from(s, 0);
    assert(s.take(0) =~= Seq::<char>::empty());
    assert(s.skip(0) =~= s);
}

} // verus!
