//! Variable names, nameref targets, and the results and failures of resolving them.
//!
//! A variable name is a letter or `_` followed by letters, digits and `_`. A nameref
//! target is a name, or a name followed by a bracketed subscript (`arr[2]`, `map[a[b]]`).

use vstd::prelude::*;
use vstd::string::StrSliceExecFns;

use crate::text;

verus! {

/// Whether `c` may start a variable name.
pub open spec fn is_name_start(c: char) -> bool {
    ('a' <= c && c <= 'z') || ('A' <= c && c <= 'Z') || c == '_'
}

/// Whether `c` may continue a variable name.
pub open spec fn is_name_char(c: char) -> bool {
    is_name_start(c) || ('0' <= c && c <= '9')
}

/// Whether `s` is a legal variable name.
pub open spec fn is_valid_name(s: Seq<char>) -> bool {
    &&& s.len() > 0
    &&& is_name_start(s[0])
    &&& forall|i: int| 1 <= i < s.len() ==> #[trigger] is_name_char(s[i])
}

/// The position of the first `c` in `s`, if any.
pub open spec fn first_index_of(s: Seq<char>, c: char) -> Option<int>
    decreases s.len(),
{
    if s.len() == 0 {
        None
    } else if s[0] == c {
        Some(0)
    } else {
        match first_index_of(s.drop_first(), c) {
            Some(i) => Some(i + 1),
            None => None,
        }
    }
}

/// The base and subscript of a resolved target `name[subscript]`: the target must end
/// with `]`, the base is what precedes the first `[` and must not be empty, and the
/// subscript is everything between that `[` and the final `]`.
pub open spec fn split_subscript(t: Seq<char>) -> Option<(Seq<char>, Seq<char>)> {
    if t.len() > 0 && t.last() == ']' {
        match first_index_of(t.drop_last(), '[') {
            Some(p) => if p > 0 {
                Some((t.take(p), t.subrange(p + 1, t.len() - 1)))
            } else {
                None
            },
            None => None,
        }
    } else {
        None
    }
}

/// The nesting change of a run of chars: the number of `[` less the number of `]`.
pub open spec fn bracket_depth(s: Seq<char>) -> int
    decreases s.len(),
{
    if s.len() == 0 {
        0
    } else {
        bracket_depth(s.drop_last()) + if s.last() == '[' {
            1int
        } else if s.last() == ']' {
            -1int
        } else {
            0int
        }
    }
}

/// Whether the `[` just before `rest` is closed by the last char of `rest` and by no
/// earlier one: the brackets of every proper prefix leave it open, and all of `rest`
/// closes it.
pub open spec fn closes_at_end(rest: Seq<char>) -> bool {
    &&& rest.len() > 0
    &&& 1 + bracket_depth(rest) == 0
    &&& forall|k: int| 0 < k < rest.len() ==> 1 + #[trigger] bracket_depth(rest.take(k)) > 0
}

/// Whether `t` is a valid nameref target: a legal name, or a legal name followed by a `[`
/// whose matching `]` is the last char.
pub open spec fn is_valid_nameref_target(t: Seq<char>) -> bool {
    match first_index_of(t, '[') {
        None => is_valid_name(t),
        Some(p) => is_valid_name(t.take(p)) && closes_at_end(t.subrange(p + 1, t.len() as int)),
    }
}

/// `first_index_of` finds the first occurrence.
pub proof fn lemma_first_index_of(s: Seq<char>, c: char)
    ensures
        match first_index_of(s, c) {
            Some(i) => 0 <= i < s.len() && s[i] == c && forall|j: int| 0 <= j < i ==> s[j] != c,
            None => forall|j: int| 0 <= j < s.len() ==> s[j] != c,
        },
    decreases s.len(),
{
    if s.len() > 0 && s[0] != c {
        lemma_first_index_of(s.drop_first(), c);
        match first_index_of(s.drop_first(), c) {
            Some(i) => {
                assert forall|j: int| 0 <= j < i + 1 implies s[j] != c by {
                    if j > 0 {
                        assert(s[j] == s.drop_first()[j - 1]);
                    }
                }
            },
            None => {
                assert forall|j: int| 0 <= j < s.len() implies s[j] != c by {
                    if j > 0 {
                        assert(s[j] == s.drop_first()[j - 1]);
                    }
                }
            },
        }
    }
}

/// A position with no earlier occurrence is where `first_index_of` points.
pub proof fn lemma_first_index_of_is(s: Seq<char>, c: char, i: int)
    requires
        0 <= i <= s.len(),
        forall|j: int| 0 <= j < i ==> s[j] != c,
        i < s.len() ==> s[i] == c,
    ensures
        first_index_of(s, c) == if i < s.len() { Some(i) } else { None::<int> },
{
    lemma_first_index_of(s, c);
}

/// Returns the position of the first `c` in `v`, if any.
fn find_char(v: &Vec<char>, c: char) -> (r: Option<usize>)
    ensures
        match r {
            Some(i) => first_index_of(v@, c) == Some(i as int),
            None => first_index_of(v@, c) is None,
        },
{
    let mut i: usize = 0;
    while i < v.len()
        invariant
            i <= v@.len(),
            forall|j: int| 0 <= j < i ==> v@[j] != c,
        decreases v@.len() - i,
    {
        if v[i] == c {
            proof {
                lemma_first_index_of_is(v@, c, i as int);
            }
            return Some(i);
        }
        i = i + 1;
    }
    proof {
        lemma_first_index_of_is(v@, c, i as int);
    }
    None
}

/// Parses a potential `name[index]` subscript from a resolved nameref target string,
/// returning the base name and the subscript, or the target itself and `None` (see
/// [`split_subscript`]). Brackets inside the subscript are kept as they are.
pub fn parse_nameref_subscript(target: &str) -> (r: (&str, Option<&str>))
    ensures
        match split_subscript(target@) {
            Some((base, sub)) => r.0@ == base && (r.1 matches Some(s) && s@ == sub),
            None => r.0@ == target@ && r.1 is None,
        },
{
    let chars = text::chars_of(target);
    let n = chars.len();
    if n == 0 || chars[n - 1] != ']' {
        return (target, None);
    }
    let body = text::string_of(&chars, 0, n - 1);
    let ghost inner = target@.drop_last();
    proof {
        assert(body@ == inner);
    }
    let body_chars = text::chars_of(body.as_str());
    match find_char(&body_chars, '[') {
        Some(p) => {
            proof {
                lemma_first_index_of(body_chars@, '[');
            }
            if p > 0 {
                let base = target.substring_char(0, p);
                let sub = target.substring_char(p + 1, n - 1);
                proof {
                    assert(base@ == target@.take(p as int));
                }
                (base, Some(sub))
            } else {
                (target, None)
            }
        },
        None => (target, None),
    }
}

/// Checks if the given name is a valid variable name.
pub fn valid_variable_name(s: &str) -> (r: bool)
    ensures
        r == is_valid_name(s@),
{
    let chars = text::chars_of(s);
    valid_name_chars(&chars)
}

/// Whether the chars of `v` form a legal variable name.
fn valid_name_chars(v: &Vec<char>) -> (r: bool)
    ensures
        r == is_valid_name(v@),
{
    if v.len() == 0 {
        return false;
    }
    let c0 = v[0];
    if !(('a' <= c0 && c0 <= 'z') || ('A' <= c0 && c0 <= 'Z') || c0 == '_') {
        return false;
    }
    let mut i: usize = 1;
    while i < v.len()
        invariant
            1 <= i <= v@.len(),
            forall|j: int| 1 <= j < i ==> #[trigger] is_name_char(v@[j]),
        decreases v@.len() - i,
    {
        let c = v[i];
        if !(('a' <= c && c <= 'z') || ('A' <= c && c <= 'Z') || c == '_' || ('0' <= c && c <= '9')) {
            assert(!is_name_char(v@[i as int]));
            return false;
        }
        i = i + 1;
    }
    true
}

/// Returns whether `target` is a valid nameref target name: a bare legal variable name, or
/// a legal name followed by `[` whose matching `]` (brackets nest) is the final char (see
/// [`is_valid_nameref_target`]). Self-references are not checked here.
pub fn valid_nameref_target_name(target: &str) -> (r: bool)
    ensures
        r == is_valid_nameref_target(target@),
{
    let chars = text::chars_of(target);
    match find_char(&chars, '[') {
        None => valid_name_chars(&chars),
        Some(p) => {
            proof {
                lemma_first_index_of(chars@, '[');
            }
            let base = text::string_of(&chars, 0, p);
            let base_chars = text::chars_of(base.as_str());
            if !valid_name_chars(&base_chars) {
                return false;
            }
            let rest = text::string_of(&chars, p + 1, chars.len());
            let rest_chars = text::chars_of(rest.as_str());
            proof {
                assert(base_chars@ == chars@.take(p as int));
            }
            closes_at_end_exec(&rest_chars)
        },
    }
}

/// Whether the bracket opened just before `rest` is closed exactly at its last char.
fn closes_at_end_exec(rest: &Vec<char>) -> (r: bool)
    ensures
        r == closes_at_end(rest@),
{
    let mut depth: u128 = 1;
    let mut i: usize = 0;
    proof {
        assert(rest@.take(0) == Seq::<char>::empty());
    }
    while i < rest.len()
        invariant
            i <= rest@.len(),
            depth == 1 + bracket_depth(rest@.take(i as int)),
            depth >= 1,
            depth <= i + 1,
            forall|k: int| 0 < k <= i ==> 1 + #[trigger] bracket_depth(rest@.take(k)) > 0,
        decreases rest@.len() - i,
    {
        let c = rest[i];
        proof {
            assert(rest@.take(i + 1).drop_last() == rest@.take(i as int));
            assert(rest@.take(i + 1).last() == c);
        }
        if c == '[' {
            depth = depth + 1;
        } else if c == ']' {
            depth = depth - 1;
            if depth == 0 {
                proof {
                    if i + 1 == rest@.len() {
                        assert(rest@.take(i + 1) == rest@);
                    } else {
                        assert(1 + bracket_depth(rest@.take(i + 1)) == 0);
                    }
                }
                return i + 1 == rest.len();
            }
        }
        i = i + 1;
    }
    proof {
        assert(rest@.take(i as int) == rest@);
    }
    false
}

/// How a self-referential nameref was resolved: by default, or against the global scope
/// (a function-local `x` whose target is `x` names the global `x`).
#[derive(Clone, Copy, Debug, PartialEq, Eq, Structural)]
pub enum ResolvedScope {
    /// Look the name up by the caller's policy.
    Default,
    /// Look the name up in the global scope.
    Global,
}

/// The two kinds of nameref resolution failure.
#[derive(Clone, Copy, Debug, PartialEq, Eq, Structural)]
pub enum NameRefFaultKind {
    /// The chain forms a cycle (a variable transitively references itself).
    Circular,
    /// The chain exceeded the maximum resolution depth without terminating.
    MaxDepthExceeded {
        /// The depth limit.
        max: usize,
    },
}

/// A failure to resolve a nameref chain: either a true cycle or a chain that exceeds the
/// maximum supported resolution depth. It names the variable resolution started from.
#[derive(Clone, Debug)]
pub struct NameRefFault {
    kind: NameRefFaultKind,
    head: String,
}

/// The model of a [`NameRefFault`].
pub struct FaultView {
    /// Its kind.
    pub kind: NameRefFaultKind,
    /// The variable resolution started from.
    pub head: Seq<char>,
}

impl NameRefFault {
    /// The model of this fault.
    pub closed spec fn view(&self) -> FaultView {
        FaultView { kind: self.kind, head: self.head@ }
    }

    /// Constructs a circular-reference fault blaming `head`.
    pub fn circular(head: &str) -> (f: Self)
        ensures
            f@ == (FaultView { kind: NameRefFaultKind::Circular, head: head@ }),
    {
        NameRefFault { kind: NameRefFaultKind::Circular, head: head.to_owned() }
    }

    /// Constructs a max-depth fault blaming `head`.
    pub fn max_depth(head: &str, max: usize) -> (f: Self)
        ensures
            f@ == (FaultView { kind: NameRefFaultKind::MaxDepthExceeded { max }, head: head@ }),
    {
        NameRefFault { kind: NameRefFaultKind::MaxDepthExceeded { max }, head: head.to_owned() }
    }

    /// The variable name resolution started from.
    pub fn head(&self) -> (r: &str)
        ensures
            r@ == self@.head,
    {
        self.head.as_str()
    }

    /// Returns `true` if this is a true cycle (as opposed to a too-deep but acyclic chain).
    pub fn is_circular(&self) -> (r: bool)
        ensures
            r == (self@.kind == NameRefFaultKind::Circular),
    {
        match self.kind {
            NameRefFaultKind::Circular => true,
            _ => false,
        }
    }

    /// The diagnostic text, e.g. `ref: circular name reference` or
    /// `ref: maximum nameref depth (8) exceeded`.
    pub fn to_string(&self) -> (r: String)
        ensures
            r@ == fault_message(self@),
    {
        let mut s = self.head.clone();
        match self.kind {
            NameRefFaultKind::Circular => {
                text::push_str(&mut s, ": circular name reference");
                proof {
                    reveal_strlit(": circular name reference");
                }
            },
            NameRefFaultKind::MaxDepthExceeded { max } => {
                text::push_str(&mut s, ": maximum nameref depth (");
                let digits = text::decimal_string(max as u64);
                text::push_str(&mut s, digits.as_str());
                text::push_str(&mut s, ") exceeded");
                proof {
                    reveal_strlit(": maximum nameref depth (");
                    reveal_strlit(") exceeded");
                }
            },
        }
        s
    }
}

/// The diagnostic text of a fault.
pub open spec fn fault_message(f: FaultView) -> Seq<char> {
    match f.kind {
        NameRefFaultKind::Circular => f.head + ": circular name reference"@,
        NameRefFaultKind::MaxDepthExceeded { max } => f.head + ": maximum nameref depth ("@
            + text::decimal_text(max as nat) + ") exceeded"@,
    }
}

/// A fully resolved nameref target, split into base name and optional array subscript,
/// with the scope the base is to be looked up in.
#[derive(Clone, Debug)]
pub struct ResolvedName {
    name: String,
    subscript: Option<String>,
    scope: ResolvedScope,
}

/// The model of a [`ResolvedName`].
pub struct ResolvedNameView {
    /// The base name.
    pub name: Seq<char>,
    /// The subscript, if any.
    pub subscript: Option<Seq<char>>,
    /// The scope to look the base up in.
    pub scope: ResolvedScope,
}

/// The model of an optional string.
pub open spec fn opt_view(o: Option<String>) -> Option<Seq<char>> {
    match o {
        Some(s) => Some(s@),
        None => None,
    }
}

/// The resolved name a target string parses into.
pub open spec fn parsed_target(t: Seq<char>, scope: ResolvedScope) -> ResolvedNameView {
    match split_subscript(t) {
        Some((base, sub)) => ResolvedNameView { name: base, subscript: Some(sub), scope },
        None => ResolvedNameView { name: t, subscript: None, scope },
    }
}

impl ResolvedName {
    /// The model of this name.
    pub closed spec fn view(&self) -> ResolvedNameView {
        ResolvedNameView { name: self.name@, subscript: opt_view(self.subscript), scope: self.scope }
    }

    /// The base variable name (after nameref resolution and subscript extraction).
    pub fn name(&self) -> (r: &str)
        ensures
            r@ == self@.name,
    {
        self.name.as_str()
    }

    /// The array subscript, if the resolved target includes one.
    pub fn subscript(&self) -> (r: Option<&str>)
        ensures
            match r {
                Some(s) => self@.subscript == Some(s@),
                None => self@.subscript is None,
            },
    {
        match &self.subscript {
            Some(s) => Some(s.as_str()),
            None => None,
        }
    }

    /// The scope the base name resolves against.
    pub fn resolved_scope(&self) -> (r: ResolvedScope)
        ensures
            r == self@.scope,
    {
        self.scope
    }

    /// Whether a self-referential function-local nameref resolved this name against the
    /// global scope.
    pub fn is_global_scope(&self) -> (r: bool)
        ensures
            r == (self@.scope == ResolvedScope::Global),
    {
        match self.scope {
            ResolvedScope::Global => true,
            ResolvedScope::Default => false,
        }
    }

    /// Consumes this name and returns its base name, subscript and scope.
    pub fn into_parts(self) -> (r: (String, Option<String>, ResolvedScope))
        ensures
            r.0@ == self@.name,
            opt_view(r.1) == self@.subscript,
            r.2 == self@.scope,
    {
        (self.name, self.subscript, self.scope)
    }

    /// Consumes this name and returns the base variable name.
    pub fn into_name(self) -> (r: String)
        ensures
            r@ == self@.name,
    {
        self.name
    }

    /// Returns a copy with the subscript stripped, keeping only the base name (and scope).
    pub fn without_subscript(&self) -> (r: Self)
        ensures
            r@ == (ResolvedNameView { subscript: None, ..self@ }),
    {
        ResolvedName { name: self.name.clone(), subscript: None, scope: self.scope }
    }

    /// The base name and its scope, for an exact lookup (the subscript is left to the
    /// caller).
    pub fn base(&self) -> (r: BaseRef<'_>)
        ensures
            r.name@ == self@.name,
            r.scope == self@.scope,
    {
        BaseRef { name: self.name.as_str(), scope: self.scope }
    }

    /// Parses a resolved nameref target string into base name and optional subscript (see
    /// [`split_subscript`]).
    pub fn parse(resolved: String) -> (r: Self)
        ensures
            r@ == parsed_target(resolved@, ResolvedScope::Default),
    {
        Self::parse_in(resolved.as_str(), ResolvedScope::Default)
    }

    /// Parses a resolved target string, to be looked up against `scope`.
    pub fn parse_in(resolved: &str, scope: ResolvedScope) -> (r: Self)
        ensures
            r@ == parsed_target(resolved@, scope),
    {
        let (base, sub) = parse_nameref_subscript(resolved);
        match sub {
            Some(idx) => ResolvedName { name: base.to_owned(), subscript: Some(idx.to_owned()), scope },
            None => ResolvedName { name: resolved.to_owned(), subscript: None, scope },
        }
    }

    /// The name itself, unsubscripted and in the default scope, whatever it holds.
    pub fn unresolved(name: &str) -> (r: Self)
        ensures
            r@ == (ResolvedNameView { name: name@, subscript: None, scope: ResolvedScope::Default }),
    {
        ResolvedName { name: name.to_owned(), subscript: None, scope: ResolvedScope::Default }
    }

    /// Wraps a name already resolved (no subscript) as a `ResolvedName`.
    pub fn already_resolved(name: &str) -> (r: Self)
        requires
            !name@.contains('['),
        ensures
            r@ == (ResolvedNameView { name: name@, subscript: None, scope: ResolvedScope::Default }),
    {
        ResolvedName { name: name.to_owned(), subscript: None, scope: ResolvedScope::Default }
    }

    /// Wraps a plain (non-subscripted) name as a `ResolvedName`.
    pub fn plain(name: &str) -> (r: Self)
        requires
            !name@.contains('['),
        ensures
            r@ == (ResolvedNameView { name: name@, subscript: None, scope: ResolvedScope::Default }),
    {
        ResolvedName { name: name.to_owned(), subscript: None, scope: ResolvedScope::Default }
    }
}

/// A base name and the scope to look it up in, borrowed from a [`ResolvedName`].
#[derive(Clone, Copy)]
pub struct BaseRef<'a> {
    /// The base name.
    pub name: &'a str,
    /// The scope to look it up in.
    pub scope: ResolvedScope,
}

/// A resolved target kept verbatim (no subscript parsing), with its scope.
#[derive(Clone, Debug)]
pub struct UnparsedNameRef {
    name: String,
    scope: ResolvedScope,
}

impl UnparsedNameRef {
    /// The model: the target text and its scope.
    pub closed spec fn view(&self) -> (Seq<char>, ResolvedScope) {
        (self.name@, self.scope)
    }

    /// Makes a verbatim target.
    pub fn new(name: &str, scope: ResolvedScope) -> (r: Self)
        ensures
            r@ == (name@, scope),
    {
        UnparsedNameRef { name: name.to_owned(), scope }
    }

    /// The resolved target, as it stands.
    pub fn name(&self) -> (r: &str)
        ensures
            r@ == self@.0,
    {
        self.name.as_str()
    }

    /// The scope the target resolves against.
    pub fn resolved_scope(&self) -> (r: ResolvedScope)
        ensures
            r == self@.1,
    {
        self.scope
    }
}

/// The strategy of a [`NameRef`].
#[derive(Clone, Debug)]
pub enum NameRefStrategy {
    /// Follow nameref chains before writing.
    Resolve(String),
    /// Name already resolved.
    PreResolved(ResolvedName),
    /// Write the named variable itself; no chain following, no subscript parsing.
    Bypass(String),
}

/// How a variable name should be resolved for a mutation (unset, update, etc.).
#[derive(Clone, Debug)]
pub struct NameRef(pub NameRefStrategy);

impl NameRef {
    /// Constructs a chain-following reference.
    pub fn resolve(name: &str) -> (r: Self)
        ensures
            r.0 matches NameRefStrategy::Resolve(s) && s@ == name@,
    {
        NameRef(NameRefStrategy::Resolve(name.to_owned()))
    }

    /// Constructs a pre-resolved reference.
    pub fn pre_resolved(resolved: ResolvedName) -> (r: Self)
        ensures
            r.0 matches NameRefStrategy::PreResolved(n) && n@ == resolved@,
    {
        NameRef(NameRefStrategy::PreResolved(resolved))
    }

    /// Constructs a bypass reference: write the named variable itself, not what it
    /// references. The name must carry no subscript.
    pub fn bypass(name: &str) -> (r: Self)
        requires
            !name@.contains('['),
        ensures
            r.0 matches NameRefStrategy::Bypass(s) && s@ == name@,
    {
        NameRef(NameRefStrategy::Bypass(name.to_owned()))
    }
}

/// A chain-following reference to the name `s`.
pub open spec fn resolving(s: Seq<char>) -> NameRef {
    choose|r: NameRef| r.0 matches NameRefStrategy::Resolve(t) && t@ == s
}

impl<'a> From<&'a str> for NameRef {
    fn from(s: &'a str) -> (r: Self) {
        NameRef(NameRefStrategy::Resolve(s.to_owned()))
    }
}

impl<'a> vstd::std_specs::convert::FromSpecImpl<&'a str> for NameRef {
    open spec fn obeys_from_spec() -> bool {
        false
    }

    open spec fn from_spec(v: &'a str) -> Self {
        resolving(v@)
    }
}

impl From<String> for NameRef {
    fn from(s: String) -> (r: Self) {
        NameRef(NameRefStrategy::Resolve(s))
    }
}

impl vstd::std_specs::convert::FromSpecImpl<String> for NameRef {
    open spec fn obeys_from_spec() -> bool {
        false
    }

    open spec fn from_spec(v: String) -> Self {
        resolving(v@)
    }
}

impl<'a> From<&'a String> for NameRef {
    fn from(s: &'a String) -> (r: Self) {
        NameRef(NameRefStrategy::Resolve(s.clone()))
    }
}

impl<'a> vstd::std_specs::convert::FromSpecImpl<&'a String> for NameRef {
    open spec fn obeys_from_spec() -> bool {
        false
    }

    open spec fn from_spec(v: &'a String) -> Self {
        resolving(v@)
    }
}

impl From<ResolvedName> for NameRef {
    fn from(r: ResolvedName) -> (n: Self) {
        NameRef(NameRefStrategy::PreResolved(r))
    }
}

impl vstd::std_specs::convert::FromSpecImpl<ResolvedName> for NameRef {
    open spec fn obeys_from_spec() -> bool {
        false
    }

    open spec fn from_spec(v: ResolvedName) -> Self {
        NameRef(NameRefStrategy::PreResolved(v))
    }
}

} // verus!
