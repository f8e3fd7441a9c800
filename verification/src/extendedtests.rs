//! The predicates of extended tests (`[[ ... ]]`) and `test`, on operands that are already
//! expanded: what each one decides from its operands' text, and, for those that ask the
//! file system, the shell's options or its open files, which question to ask.

use vstd::prelude::*;

use crate::env::{find_var, EnvironmentLookup, ShellEnvironment};
use crate::error::{self, Error, ErrorKind};
use crate::int_utils::{radix_value, ParseIntRadix};
use crate::text;

verus! {

/// A binary predicate of an extended test.
#[derive(Clone, Copy, Debug, Eq, PartialEq, Structural)]
pub enum BinaryPredicate {
    /// `-ef`
    FilesReferToSameDeviceAndInodeNumbers,
    /// `-nt`
    LeftFileIsNewerOrExistsWhenRightDoesNot,
    /// `-ot`
    LeftFileIsOlderOrDoesNotExistWhenRightDoes,
    /// `==` with a pattern
    StringExactlyMatchesPattern,
    /// `!=` with a pattern
    StringDoesNotExactlyMatchPattern,
    /// `=~`
    StringMatchesRegex,
    /// `==` with a string
    StringExactlyMatchesString,
    /// `!=` with a string
    StringDoesNotExactlyMatchString,
    /// Substring containment
    StringContainsSubstring,
    /// `<`
    LeftSortsBeforeRight,
    /// `>`
    LeftSortsAfterRight,
    /// `-eq`
    ArithmeticEqualTo,
    /// `-ne`
    ArithmeticNotEqualTo,
    /// `-lt`
    ArithmeticLessThan,
    /// `-le`
    ArithmeticLessThanOrEqualTo,
    /// `-gt`
    ArithmeticGreaterThan,
    /// `-ge`
    ArithmeticGreaterThanOrEqualTo,
}

/// A unary predicate of an extended test.
#[derive(Clone, Copy, Debug, Eq, PartialEq, Structural)]
pub enum UnaryPredicate {
    /// `-e`
    FileExists,
    /// `-b`
    FileExistsAndIsBlockSpecialFile,
    /// `-c`
    FileExistsAndIsCharSpecialFile,
    /// `-d`
    FileExistsAndIsDir,
    /// `-f`
    FileExistsAndIsRegularFile,
    /// `-g`
    FileExistsAndIsSetgid,
    /// `-h`
    FileExistsAndIsSymlink,
    /// `-k`
    FileExistsAndHasStickyBit,
    /// `-p`
    FileExistsAndIsFifo,
    /// `-r`
    FileExistsAndIsReadable,
    /// `-s`
    FileExistsAndIsNotZeroLength,
    /// `-t`
    FdIsOpenTerminal,
    /// `-u`
    FileExistsAndIsSetuid,
    /// `-w`
    FileExistsAndIsWritable,
    /// `-x`
    FileExistsAndIsExecutable,
    /// `-G`
    FileExistsAndOwnedByEffectiveGroupId,
    /// `-N`
    FileExistsAndModifiedSinceLastRead,
    /// `-O`
    FileExistsAndOwnedByEffectiveUserId,
    /// `-S`
    FileExistsAndIsSocket,
    /// `-o`
    ShellOptionEnabled,
    /// `-v`
    ShellVariableIsSetAndAssigned,
    /// `-R`
    ShellVariableIsSetAndNameRef,
    /// `-z`
    StringHasZeroLength,
    /// `-n`
    StringHasNonZeroLength,
}

/// How two numbers are compared.
#[derive(Clone, Copy, Debug, Eq, PartialEq, Structural)]
pub enum ArithComparison {
    /// Equal.
    EqualTo,
    /// Not equal.
    NotEqualTo,
    /// Less.
    LessThan,
    /// Less or equal.
    LessThanOrEqualTo,
    /// Greater.
    GreaterThan,
    /// Greater or equal.
    GreaterThanOrEqualTo,
}

/// Whether `l` and `r` compare as `cmp` says.
pub open spec fn compares(cmp: ArithComparison, l: int, r: int) -> bool {
    match cmp {
        ArithComparison::EqualTo => l == r,
        ArithComparison::NotEqualTo => l != r,
        ArithComparison::LessThan => l < r,
        ArithComparison::LessThanOrEqualTo => l <= r,
        ArithComparison::GreaterThan => l > r,
        ArithComparison::GreaterThanOrEqualTo => l >= r,
    }
}

/// The value of `s` as a 64-bit signed integer, as Rust reads one, if it is one.
pub open spec fn i64_value(s: Seq<char>) -> Option<int> {
    match radix_value(s, 10, true) {
        Some(v) => if i64::MIN <= v <= i64::MAX { Some(v) } else { None },
        None => None,
    }
}

/// Whether two numeric operands compare as `cmp` says: false unless both are 64-bit
/// signed integers.
pub open spec fn arithmetic_holds(l: Seq<char>, r: Seq<char>, cmp: ArithComparison) -> bool {
    match (i64_value(l), i64_value(r)) {
        (Some(a), Some(b)) => compares(cmp, a, b),
        _ => false,
    }
}

/// Returns whether `left` and `right`, read as 64-bit signed integers, compare as `op`
/// says; false if either isn't one.
pub fn apply_test_binary_arithmetic_predicate(left: &str, right: &str, op: ArithComparison) -> (r: bool)
    ensures
        r == arithmetic_holds(left@, right@, op),
{
    let l = <i64 as ParseIntRadix>::from_str_radix(left, 10);
    let r = <i64 as ParseIntRadix>::from_str_radix(right, 10);
    match (l, r) {
        (Some(a), Some(b)) => match op {
            ArithComparison::EqualTo => a == b,
            ArithComparison::NotEqualTo => a != b,
            ArithComparison::LessThan => a < b,
            ArithComparison::LessThanOrEqualTo => a <= b,
            ArithComparison::GreaterThan => a > b,
            ArithComparison::GreaterThanOrEqualTo => a >= b,
        },
        _ => false,
    }
}

/// Whether `a` sorts before `b`, char by char (as Rust orders strings: by their bytes,
/// which is the order of their chars).
pub open spec fn sorts_before(a: Seq<char>, b: Seq<char>) -> bool
    decreases a.len(),
{
    if a.len() == 0 {
        b.len() > 0
    } else if b.len() == 0 {
        false
    } else if a[0] != b[0] {
        a[0] < b[0]
    } else {
        sorts_before(a.drop_first(), b.drop_first())
    }
}

/// Returns whether `a` sorts before `b`.
pub fn str_less(a: &str, b: &str) -> (r: bool)
    ensures
        r == sorts_before(a@, b@),
{
    let av = text::chars_of(a);
    let bv = text::chars_of(b);
    let mut i: usize = 0;
    proof {
        assert(a@.skip(0) == a@);
        assert(b@.skip(0) == b@);
    }
    while i < av.len() && i < bv.len() && text::char_at(&av, i) == text::char_at(&bv, i)
        invariant
            av@ == a@,
            bv@ == b@,
            i <= av@.len(),
            i <= bv@.len(),
            sorts_before(a@, b@) == sorts_before(a@.skip(i as int), b@.skip(i as int)),
        decreases av@.len() - i,
    {
        proof {
            assert(a@.skip(i as int).drop_first() == a@.skip(i + 1));
            assert(b@.skip(i as int).drop_first() == b@.skip(i + 1));
        }
        i = i + 1;
    }
    if i == av.len() {
        i < bv.len()
    } else if i == bv.len() {
        false
    } else {
        text::char_at(&av, i) < text::char_at(&bv, i)
    }
}

/// Which question about files a binary predicate asks of its two operands' paths.
#[derive(Clone, Copy, Debug, Eq, PartialEq, Structural)]
pub enum FileComparison {
    /// Whether both name the same file (`-ef`).
    SameDeviceAndInode,
    /// Whether the left was modified after the right, or exists when the right doesn't
    /// (`-nt`).
    LeftNewer,
    /// Whether the left was modified before the right, or doesn't exist when the right
    /// does (`-ot`).
    LeftOlder,
}

/// What a binary predicate on two expanded operands comes to: its answer, or the question
/// about files or patterns that answers it.
#[derive(Clone, Copy, Debug, Eq, PartialEq, Structural)]
pub enum BinaryTestOutcome {
    /// The answer.
    Decided(bool),
    /// The answer is what comparing the operands' files tells.
    CompareFiles(FileComparison),
    /// The answer is whether the left operand matches the right as a shell pattern, or
    /// doesn't if `negate`.
    MatchPattern {
        /// Whether the answer is that it doesn't match.
        negate: bool,
    },
}

/// What a binary predicate on the operands `l` and `r` comes to; `None` for the predicates
/// it doesn't apply to (a regex match, substring containment).
pub open spec fn binary_outcome(op: BinaryPredicate, l: Seq<char>, r: Seq<char>) -> Option<BinaryTestOutcome> {
    match op {
        BinaryPredicate::FilesReferToSameDeviceAndInodeNumbers => Some(BinaryTestOutcome::CompareFiles(FileComparison::SameDeviceAndInode)),
        BinaryPredicate::LeftFileIsNewerOrExistsWhenRightDoesNot => Some(BinaryTestOutcome::CompareFiles(FileComparison::LeftNewer)),
        BinaryPredicate::LeftFileIsOlderOrDoesNotExistWhenRightDoes => Some(BinaryTestOutcome::CompareFiles(FileComparison::LeftOlder)),
        BinaryPredicate::LeftSortsBeforeRight => Some(BinaryTestOutcome::Decided(sorts_before(l, r))),
        BinaryPredicate::LeftSortsAfterRight => Some(BinaryTestOutcome::Decided(sorts_before(r, l))),
        BinaryPredicate::ArithmeticEqualTo => Some(BinaryTestOutcome::Decided(arithmetic_holds(l, r, ArithComparison::EqualTo))),
        BinaryPredicate::ArithmeticNotEqualTo => Some(BinaryTestOutcome::Decided(arithmetic_holds(l, r, ArithComparison::NotEqualTo))),
        BinaryPredicate::ArithmeticLessThan => Some(BinaryTestOutcome::Decided(arithmetic_holds(l, r, ArithComparison::LessThan))),
        BinaryPredicate::ArithmeticLessThanOrEqualTo => Some(BinaryTestOutcome::Decided(arithmetic_holds(l, r, ArithComparison::LessThanOrEqualTo))),
        BinaryPredicate::ArithmeticGreaterThan => Some(BinaryTestOutcome::Decided(arithmetic_holds(l, r, ArithComparison::GreaterThan))),
        BinaryPredicate::ArithmeticGreaterThanOrEqualTo => Some(BinaryTestOutcome::Decided(arithmetic_holds(l, r, ArithComparison::GreaterThanOrEqualTo))),
        BinaryPredicate::StringExactlyMatchesPattern => Some(BinaryTestOutcome::MatchPattern { negate: false }),
        BinaryPredicate::StringDoesNotExactlyMatchPattern => Some(BinaryTestOutcome::MatchPattern { negate: true }),
        BinaryPredicate::StringExactlyMatchesString => Some(BinaryTestOutcome::Decided(l == r)),
        BinaryPredicate::StringDoesNotExactlyMatchString => Some(BinaryTestOutcome::Decided(l != r)),
        BinaryPredicate::StringMatchesRegex => None,
        BinaryPredicate::StringContainsSubstring => None,
    }
}

/// Applies a binary predicate to expanded operands: the answer, or the question about
/// files or patterns that answers it. A regex match or substring containment isn't
/// supported here, and is reported as unimplemented.
pub fn apply_binary_predicate_to_strs(op: BinaryPredicate, left: &str, right: &str) -> (r: Result<BinaryTestOutcome, Error>)
    ensures
        match binary_outcome(op, left@, right@) {
            Some(o) => r == Ok::<BinaryTestOutcome, Error>(o),
            None => r matches Err(e) && e.spec_kind() is Unimplemented,
        },
{
    let outcome = match op {
        BinaryPredicate::FilesReferToSameDeviceAndInodeNumbers => BinaryTestOutcome::CompareFiles(FileComparison::SameDeviceAndInode),
        BinaryPredicate::LeftFileIsNewerOrExistsWhenRightDoesNot => BinaryTestOutcome::CompareFiles(FileComparison::LeftNewer),
        BinaryPredicate::LeftFileIsOlderOrDoesNotExistWhenRightDoes => BinaryTestOutcome::CompareFiles(FileComparison::LeftOlder),
        BinaryPredicate::LeftSortsBeforeRight => BinaryTestOutcome::Decided(str_less(left, right)),
        BinaryPredicate::LeftSortsAfterRight => BinaryTestOutcome::Decided(str_less(right, left)),
        BinaryPredicate::ArithmeticEqualTo => BinaryTestOutcome::Decided(apply_test_binary_arithmetic_predicate(left, right, ArithComparison::EqualTo)),
        BinaryPredicate::ArithmeticNotEqualTo => BinaryTestOutcome::Decided(apply_test_binary_arithmetic_predicate(left, right, ArithComparison::NotEqualTo)),
        BinaryPredicate::ArithmeticLessThan => BinaryTestOutcome::Decided(apply_test_binary_arithmetic_predicate(left, right, ArithComparison::LessThan)),
        BinaryPredicate::ArithmeticLessThanOrEqualTo => BinaryTestOutcome::Decided(apply_test_binary_arithmetic_predicate(left, right, ArithComparison::LessThanOrEqualTo)),
        BinaryPredicate::ArithmeticGreaterThan => BinaryTestOutcome::Decided(apply_test_binary_arithmetic_predicate(left, right, ArithComparison::GreaterThan)),
        BinaryPredicate::ArithmeticGreaterThanOrEqualTo => BinaryTestOutcome::Decided(apply_test_binary_arithmetic_predicate(left, right, ArithComparison::GreaterThanOrEqualTo)),
        BinaryPredicate::StringExactlyMatchesPattern => BinaryTestOutcome::MatchPattern { negate: false },
        BinaryPredicate::StringDoesNotExactlyMatchPattern => BinaryTestOutcome::MatchPattern { negate: true },
        BinaryPredicate::StringExactlyMatchesString => BinaryTestOutcome::Decided(text::str_eq(left, right)),
        BinaryPredicate::StringDoesNotExactlyMatchString => BinaryTestOutcome::Decided(!text::str_eq(left, right)),
        BinaryPredicate::StringMatchesRegex | BinaryPredicate::StringContainsSubstring => {
            return error::unimp("unsupported test binary predicate");
        },
    };
    Ok(outcome)
}

/// What a unary predicate on an expanded operand comes to: its answer, or the question
/// about a file, an open file or a shell option that answers it.
#[derive(Clone, Copy, Debug, Eq, PartialEq, Structural)]
pub enum UnaryTestOutcome {
    /// The answer.
    Decided(bool),
    /// The answer is what the predicate tells of the file the operand names.
    CheckFile(UnaryPredicate),
    /// The answer is whether the file descriptor is open on a terminal.
    CheckTerminal(i32),
    /// The answer is whether the `set -o` option the operand names is on (false if there
    /// is no such option).
    CheckShellOption,
}

/// The value of `s` as a file descriptor number, as Rust reads an `i32`, if it is one.
pub open spec fn fd_value(s: Seq<char>) -> Option<int> {
    match radix_value(s, 10, true) {
        Some(v) => if i32::MIN <= v <= i32::MAX { Some(v) } else { None },
        None => None,
    }
}

/// What a unary predicate on the operand `s` comes to in the environment `env`; `None` for
/// a predicate that isn't supported (`-N`).
pub open spec fn unary_outcome(op: UnaryPredicate, s: Seq<char>, env: Seq<crate::env::ScopeView>) -> Option<UnaryTestOutcome> {
    match op {
        UnaryPredicate::StringHasNonZeroLength => Some(UnaryTestOutcome::Decided(s.len() > 0)),
        UnaryPredicate::StringHasZeroLength => Some(UnaryTestOutcome::Decided(s.len() == 0)),
        UnaryPredicate::FdIsOpenTerminal => match fd_value(s) {
            Some(fd) => Some(UnaryTestOutcome::CheckTerminal(fd as i32)),
            None => Some(UnaryTestOutcome::Decided(false)),
        },
        UnaryPredicate::FileExistsAndModifiedSinceLastRead => None,
        UnaryPredicate::ShellOptionEnabled => Some(UnaryTestOutcome::CheckShellOption),
        UnaryPredicate::ShellVariableIsSetAndAssigned => Some(UnaryTestOutcome::Decided(
            match find_var(env, s, EnvironmentLookup::Anywhere) {
                Some((_, v)) => !(v@.value is Unset),
                None => false,
            },
        )),
        UnaryPredicate::ShellVariableIsSetAndNameRef => Some(UnaryTestOutcome::Decided(
            match find_var(env, s, EnvironmentLookup::Anywhere) {
                Some((_, v)) => !(v@.value is Unset) && v@.nameref,
                None => false,
            },
        )),
        _ => Some(UnaryTestOutcome::CheckFile(op)),
    }
}

/// Applies a unary predicate to an expanded operand: the answer, or the question about a
/// file, an open file or a shell option that answers it. `-N` isn't supported, and is
/// reported as unimplemented.
pub fn apply_unary_predicate_to_str(op: UnaryPredicate, operand: &str, env: &ShellEnvironment) -> (r: Result<UnaryTestOutcome, Error>)
    requires
        env.wf(),
    ensures
        match unary_outcome(op, operand@, env@) {
            Some(o) => r == Ok::<UnaryTestOutcome, Error>(o),
            None => r matches Err(e) && e.spec_kind() is Unimplemented,
        },
{
    let outcome = match op {
        UnaryPredicate::StringHasNonZeroLength => UnaryTestOutcome::Decided(!operand.is_empty()),
        UnaryPredicate::StringHasZeroLength => UnaryTestOutcome::Decided(operand.is_empty()),
        UnaryPredicate::FdIsOpenTerminal => match <i32 as ParseIntRadix>::from_str_radix(operand, 10) {
            Some(fd) => UnaryTestOutcome::CheckTerminal(fd),
            None => UnaryTestOutcome::Decided(false),
        },
        UnaryPredicate::FileExistsAndModifiedSinceLastRead => {
            return error::unimp("unary extended test predicate: FileExistsAndModifiedSinceLastRead");
        },
        UnaryPredicate::ShellOptionEnabled => UnaryTestOutcome::CheckShellOption,
        UnaryPredicate::ShellVariableIsSetAndAssigned => UnaryTestOutcome::Decided(env.is_set(operand)),
        UnaryPredicate::ShellVariableIsSetAndNameRef => UnaryTestOutcome::Decided(
            match env.get(operand) {
                Some((_, reffed)) => reffed.value().is_set() && reffed.is_treated_as_nameref(),
                None => false,
            },
        ),
        _ => UnaryTestOutcome::CheckFile(op),
    };
    Ok(outcome)
}

/// When a file was last modified: seconds since the epoch (negative before it) and the
/// nanoseconds within that second.
#[derive(Clone, Copy, Debug, Eq, PartialEq, Structural)]
pub struct FileTime {
    /// Whole seconds since the epoch.
    pub secs: i64,
    /// Nanoseconds within the second.
    pub nanos: u32,
}

/// Whether `a` is earlier than `b`.
pub open spec fn earlier(a: FileTime, b: FileTime) -> bool {
    a.secs < b.secs || (a.secs == b.secs && a.nanos < b.nanos)
}

fn is_earlier(a: FileTime, b: FileTime) -> (r: bool)
    ensures
        r == earlier(a, b),
{
    a.secs < b.secs || (a.secs == b.secs && a.nanos < b.nanos)
}

/// `-ot`: given the modification times of the files that exist (`None` for one that does
/// not), whether the left file is older than the right, or does not exist while the right
/// one does.
pub fn left_file_is_older_or_does_not_exist_when_right_does(left: Option<FileTime>, right: Option<FileTime>) -> (r: bool)
    ensures
        r == match (left, right) {
            (Some(a), Some(b)) => earlier(a, b),
            (None, Some(_)) => true,
            _ => false,
        },
{
    match (left, right) {
        (Some(a), Some(b)) => is_earlier(a, b),
        (None, Some(_)) => true,
        _ => false,
    }
}

/// `-nt`: given the modification times of the files that exist (`None` for one that does
/// not), whether the left file is newer than the right, or exists while the right one
/// does not.
pub fn left_file_is_newer_or_exists_when_right_does_not(left: Option<FileTime>, right: Option<FileTime>) -> (r: bool)
    ensures
        r == match (left, right) {
            (Some(a), Some(b)) => earlier(b, a),
            (Some(_), None) => true,
            _ => false,
        },
{
    match (left, right) {
        (Some(a), Some(b)) => is_earlier(b, a),
        (Some(_), None) => true,
        _ => false,
    }
}

/// `-ef`: given the device and inode numbers of the files that are readable (`None` for one
/// that is not), whether both are readable and are the same file.
pub fn files_refer_to_same_device_and_inode_numbers(left: Option<(u64, u64)>, right: Option<(u64, u64)>) -> (r: bool)
    ensures
        r == match (left, right) {
            (Some(a), Some(b)) => a == b,
            _ => false,
        },
{
    match (left, right) {
        (Some(a), Some(b)) => a.0 == b.0 && a.1 == b.1,
        _ => false,
    }
}

/// Returns whether `substring` occurs in `s`: the substring-containment test.
pub fn string_contains_substring(s: &str, substring: &str) -> (r: bool)
    ensures
        r == crate::history::occurs_in(substring@, s@),
{
    let sv = text::chars_of(s);
    let tv = text::chars_of(substring);
    crate::history::text_contains(&sv, &tv)
}

/// The captures of a regex match as `BASH_REMATCH`'s array: each capture in order, a
/// group that did not take part being empty; no captures when the regex did not match.
pub open spec fn rematch_pairs(captures: Option<Seq<Option<String>>>) -> Seq<(Option<Seq<char>>, Seq<char>)> {
    match captures {
        Some(cs) => cs.map_values(|c: Option<String>| (None::<Seq<char>>, match c {
            Some(t) => t@,
            None => Seq::<char>::empty(),
        })),
        None => Seq::empty(),
    }
}

/// The captures as values.
pub open spec fn opt_captures(captures: Option<Vec<Option<String>>>) -> Option<Seq<Option<String>>> {
    match captures {
        Some(cs) => Some(cs@),
        None => None,
    }
}

/// Records the outcome of `[[ s =~ regex ]]`, given the regex's captures if it matched
/// (`None` if it did not, or could not be used): assigns them to `BASH_REMATCH` (in the
/// global scope if it is created) and returns whether it matched; an error assigning is
/// returned instead.
pub fn record_regex_match(env: &mut ShellEnvironment, captures: Option<Vec<Option<String>>>) -> (r: Result<bool, Error>)
    requires
        old(env).wf(),
        old(env).spec_entry_count() < usize::MAX,
    ensures
        final(env).wf(),
        match crate::env::mutation::write_outcome(
            old(env)@,
            old(env).auto_export(),
            crate::env::mutation::NameRefView::Resolve("BASH_REMATCH"@),
            crate::variables::LiteralView::Array(rematch_pairs(opt_captures(captures))),
            crate::env::VarUpdate { export: false, readonly: false, nameref: false },
            EnvironmentLookup::Anywhere,
            crate::env::EnvironmentScope::Global,
        ) {
            Ok(after) => r == Ok::<bool, Error>(captures is Some) && crate::env::mutation::model_of(final(env)@) == after,
            Err(e) => r matches Err(re) && crate::env::mutation::error_is(re, e)
                && crate::env::mutation::model_of(final(env)@) == crate::env::mutation::model_of(old(env)@),
        },
{
    let matched = captures.is_some();
    let ghost caps = opt_captures(captures);
    let mut pairs: Vec<(Option<String>, String)> = Vec::new();
    match captures {
        Some(cs) => {
            let mut i: usize = 0;
            while i < cs.len()
                invariant
                    caps == Some(cs@),
                    i <= cs@.len(),
                    crate::variables::literal_pairs(pairs@) == rematch_pairs(Some(cs@.take(i as int))),
                decreases cs@.len() - i,
            {
                let text = match &cs[i] {
                    Some(t) => t.clone(),
                    None => String::new(),
                };
                proof {
                    assert(crate::variables::literal_pairs(pairs@.push((None, text))) =~= crate::variables::literal_pairs(
                        pairs@,
                    ).push((None, text@)));
                    assert(rematch_pairs(Some(cs@.take(i + 1))) =~= rematch_pairs(Some(cs@.take(i as int))).push(
                        (None, text@),
                    ));
                }
                pairs.push((None, text));
                i = i + 1;
            }
            proof {
                assert(cs@.take(cs@.len() as int) == cs@);
            }
        },
        None => {
            proof {
                assert(crate::variables::literal_pairs(pairs@) =~= rematch_pairs(caps));
            }
        },
    }
    let name = "BASH_REMATCH";
    proof {
        reveal_strlit("BASH_REMATCH");
    }
    let value = crate::variables::ShellValueLiteral::Array(crate::variables::ArrayLiteral(pairs));
    match env.update_or_add(
        crate::env::NameRef::resolve(name),
        value,
        crate::env::VarUpdate { export: false, readonly: false, nameref: false },
        EnvironmentLookup::Anywhere,
        crate::env::EnvironmentScope::Global,
    ) {
        Ok(()) => Ok(matched),
        Err(e) => Err(e),
    }
}

/// What matching a string against a regex gave: its captures, no match, or a regex that
/// could not be compiled (the compiler's message and the expression).
#[derive(Debug)]
pub enum RegexOutcome {
    /// The regex matched, with these captures.
    Matched(Vec<Option<String>>),
    /// The regex did not match.
    NoMatch,
    /// The regex could not be compiled.
    Invalid {
        /// The compiler's message.
        error: String,
        /// The expression.
        expression: String,
    },
}

/// Records the outcome of `[[ s =~ regex ]]`: a regex that could not be compiled is an
/// invalid-regex error, with `BASH_REMATCH` left alone; otherwise see
/// [`record_regex_match`].
pub fn record_regex_outcome(env: &mut ShellEnvironment, outcome: RegexOutcome) -> (r: Result<bool, Error>)
    requires
        old(env).wf(),
        old(env).spec_entry_count() < usize::MAX,
    ensures
        final(env).wf(),
        match outcome {
            RegexOutcome::Invalid { error, expression } => (r matches Err(e) && (e.spec_kind() matches ErrorKind::InvalidRegexError(m, x)
                && m@ == error@ && x@ == expression@)) && *final(env) == *old(env),
            RegexOutcome::Matched(caps) => match crate::env::mutation::write_outcome(
                old(env)@,
                old(env).auto_export(),
                crate::env::mutation::NameRefView::Resolve("BASH_REMATCH"@),
                crate::variables::LiteralView::Array(rematch_pairs(Some(caps@))),
                crate::env::VarUpdate { export: false, readonly: false, nameref: false },
                EnvironmentLookup::Anywhere,
                crate::env::EnvironmentScope::Global,
            ) {
                Ok(after) => r == Ok::<bool, Error>(true) && crate::env::mutation::model_of(final(env)@) == after,
                Err(e) => r matches Err(re) && crate::env::mutation::error_is(re, e)
                    && crate::env::mutation::model_of(final(env)@) == crate::env::mutation::model_of(old(env)@),
            },
            RegexOutcome::NoMatch => match crate::env::mutation::write_outcome(
                old(env)@,
                old(env).auto_export(),
                crate::env::mutation::NameRefView::Resolve("BASH_REMATCH"@),
                crate::variables::LiteralView::Array(rematch_pairs(None)),
                crate::env::VarUpdate { export: false, readonly: false, nameref: false },
                EnvironmentLookup::Anywhere,
                crate::env::EnvironmentScope::Global,
            ) {
                Ok(after) => r == Ok::<bool, Error>(false) && crate::env::mutation::model_of(final(env)@) == after,
                Err(e) => r matches Err(re) && crate::env::mutation::error_is(re, e)
                    && crate::env::mutation::model_of(final(env)@) == crate::env::mutation::model_of(old(env)@),
            },
        },
{
    match outcome {
        RegexOutcome::Invalid { error, expression } => Err(Error::new(ErrorKind::InvalidRegexError(error, expression))),
        RegexOutcome::Matched(caps) => record_regex_match(env, Some(caps)),
        RegexOutcome::NoMatch => record_regex_match(env, None),
    }
}

/// `[[ a OP b ]]` on the decimal texts of two 64-bit integers compares the integers:
/// `-eq`, `-ne`, `-lt`, `-le`, `-gt` and `-ge` hold exactly when `a == b`, `a != b`,
/// `a < b`, `a <= b`, `a > b` and `a >= b` (so `-gt` and `-lt` are strict: false for equal
/// operands).
pub proof fn law_arithmetic_tests_compare_integers(a: int, b: int)
    requires
        i64::MIN <= a <= i64::MAX,
        i64::MIN <= b <= i64::MAX,
    ensures
        arithmetic_holds(text::signed_decimal_text(a), text::signed_decimal_text(b), ArithComparison::EqualTo) == (a == b),
        arithmetic_holds(text::signed_decimal_text(a), text::signed_decimal_text(b), ArithComparison::NotEqualTo) == (a != b),
        arithmetic_holds(text::signed_decimal_text(a), text::signed_decimal_text(b), ArithComparison::LessThan) == (a < b),
        arithmetic_holds(text::signed_decimal_text(a), text::signed_decimal_text(b), ArithComparison::LessThanOrEqualTo) == (a
            <= b),
        arithmetic_holds(text::signed_decimal_text(a), text::signed_decimal_text(b), ArithComparison::GreaterThan) == (a > b),
        arithmetic_holds(text::signed_decimal_text(a), text::signed_decimal_text(b), ArithComparison::GreaterThanOrEqualTo)
            == (a >= b),
{
    text::lemma_signed_decimal_text_reads_back(a);
    text::lemma_signed_decimal_text_reads_back(b);
}

} // verus!
