//! Filters around command execution and script sourcing: what a filter answers, the
//! filter that does nothing, and how two filters compose into a stack.
//!
//! A pre-operation filter either lets the operation go on, with its input possibly
//! changed, or ends it at once with an output; a post-operation filter sees the output
//! and hands on a possibly changed one. In a stack, the pre-filters run first to second
//! and stop at the first that ends the operation; the post-filters run second to first.
//! Running the filters themselves (they await) is left to the caller: the functions here
//! decide what happens between them.

use vstd::prelude::*;

verus! {

/// Result of a pre-operation filter.
#[non_exhaustive]
#[derive(Debug)]
pub enum PreFilterResult<I, O> {
    /// Continue with the operation using the (possibly modified) input.
    Continue(I),
    /// Short-circuit the operation and return this output immediately.
    Return(O),
}

/// Result of a post-operation filter.
#[non_exhaustive]
#[derive(Debug)]
pub enum PostFilterResult<O> {
    /// Return this (possibly modified) output.
    Return(O),
}

/// No-op command execution filter: passes every operation through unchanged.
#[derive(Clone, Copy, Default, Debug)]
pub struct NoOpCmdExecFilter;

/// No-op source filter: passes every operation through unchanged.
#[derive(Clone, Copy, Default, Debug)]
pub struct NoOpSourceFilter;

/// What the filter that does nothing answers before an operation: go on with the input.
pub open spec fn pass_pre<I, O>(input: I) -> PreFilterResult<I, O> {
    PreFilterResult::Continue(input)
}

/// What the filter that does nothing answers after an operation: the output itself.
pub open spec fn pass_post<O>(output: O) -> PostFilterResult<O> {
    PostFilterResult::Return(output)
}

impl NoOpCmdExecFilter {
    /// The pre-operation filter: the operation goes on with its input unchanged.
    pub fn pre<I, O>(&self, input: I) -> (r: PreFilterResult<I, O>)
        ensures
            r == pass_pre::<I, O>(input),
    {
        PreFilterResult::Continue(input)
    }

    /// The post-operation filter: the output is handed on unchanged.
    pub fn post<O>(&self, output: O) -> (r: PostFilterResult<O>)
        ensures
            r == pass_post(output),
    {
        PostFilterResult::Return(output)
    }
}

impl NoOpSourceFilter {
    /// The pre-operation filter: the operation goes on with its input unchanged.
    pub fn pre<I, O>(&self, input: I) -> (r: PreFilterResult<I, O>)
        ensures
            r == pass_pre::<I, O>(input),
    {
        PreFilterResult::Continue(input)
    }

    /// The post-operation filter: the output is handed on unchanged.
    pub fn post<O>(&self, output: O) -> (r: PostFilterResult<O>)
        ensures
            r == pass_post(output),
    {
        PostFilterResult::Return(output)
    }
}

/// Two filters composed in sequence: pre-filters run `first` then `second`, post-filters
/// run `second` then `first`.
#[derive(Debug, Default)]
pub struct FilterStack<First, Second> {
    /// The first (outer) filter in the stack.
    pub first: First,
    /// The second (inner) filter in the stack.
    pub second: Second,
}

impl<First, Second> FilterStack<First, Second> {
    /// Creates a new filter stack with the given filters.
    pub fn new(first: First, second: Second) -> (r: Self)
        ensures
            r.first == first,
            r.second == second,
    {
        FilterStack { first, second }
    }
}

/// What a stack does next in a pre-operation, once its first filter has answered.
#[derive(Debug)]
pub enum StackPreStep<I, O> {
    /// Hand this input to the second filter; its answer is the stack's.
    RunSecond(I),
    /// The operation ends with this output; the second filter does not run.
    Finish(O),
}

/// The step after the first filter answered `r`: go on to the second filter with the input
/// it let through, or end with the output it gave.
pub open spec fn pre_step<I, O>(r: PreFilterResult<I, O>) -> StackPreStep<I, O> {
    match r {
        PreFilterResult::Continue(i) => StackPreStep::RunSecond(i),
        PreFilterResult::Return(o) => StackPreStep::Finish(o),
    }
}

/// Returns what a stack does after its first filter's pre-operation answered
/// `first_result` (see [`pre_step`]).
pub fn stack_pre_step<I, O>(first_result: PreFilterResult<I, O>) -> (r: StackPreStep<I, O>)
    ensures
        r == pre_step(first_result),
{
    match first_result {
        PreFilterResult::Continue(p) => StackPreStep::RunSecond(p),
        PreFilterResult::Return(o) => StackPreStep::Finish(o),
    }
}

/// Returns the output a stack hands to its first filter's post-operation, once the second
/// filter's post-operation answered `second_result`.
pub fn stack_post_step<O>(second_result: PostFilterResult<O>) -> (r: O)
    ensures
        second_result == pass_post(r),
{
    match second_result {
        PostFilterResult::Return(o) => o,
    }
}

/// The pre-operation of the stack of `f` and `g`, each taken as what it answers for each
/// input: `f` runs, and `g` runs on what `f` lets through.
pub open spec fn stacked_pre<I, O>(
    f: spec_fn(I) -> PreFilterResult<I, O>,
    g: spec_fn(I) -> PreFilterResult<I, O>,
) -> spec_fn(I) -> PreFilterResult<I, O> {
    |i: I|
        match pre_step(f(i)) {
            StackPreStep::RunSecond(p) => g(p),
            StackPreStep::Finish(o) => PreFilterResult::Return(o),
        }
}

/// The post-operation of the stack of `f` and `g`: `g` runs, and `f` runs on what `g`
/// hands on.
pub open spec fn stacked_post<O>(f: spec_fn(O) -> PostFilterResult<O>, g: spec_fn(O) -> PostFilterResult<O>) -> spec_fn(
    O,
) -> PostFilterResult<O> {
    |o: O|
        match g(o) {
            PostFilterResult::Return(x) => f(x),
        }
}

/// The filter that does nothing, before an operation.
pub open spec fn noop_pre<I, O>() -> spec_fn(I) -> PreFilterResult<I, O> {
    |i: I| pass_pre::<I, O>(i)
}

/// The filter that does nothing, after an operation.
pub open spec fn noop_post<O>() -> spec_fn(O) -> PostFilterResult<O> {
    |o: O| pass_post(o)
}

/// Stacking is associative: the stack of `a` and the stack of `b` and `c` filters as the
/// stack of the stack of `a` and `b`, and `c`; before an operation and after it.
pub proof fn law_stacking_associative<I, O>(
    a: spec_fn(I) -> PreFilterResult<I, O>,
    b: spec_fn(I) -> PreFilterResult<I, O>,
    c: spec_fn(I) -> PreFilterResult<I, O>,
    x: spec_fn(O) -> PostFilterResult<O>,
    y: spec_fn(O) -> PostFilterResult<O>,
    z: spec_fn(O) -> PostFilterResult<O>,
)
    ensures
        stacked_pre(stacked_pre(a, b), c) == stacked_pre(a, stacked_pre(b, c)),
        stacked_post(stacked_post(x, y), z) == stacked_post(x, stacked_post(y, z)),
{
    assert(stacked_pre(stacked_pre(a, b), c) =~= stacked_pre(a, stacked_pre(b, c)));
    assert(stacked_post(stacked_post(x, y), z) =~= stacked_post(x, stacked_post(y, z)));
}

/// The filter that does nothing changes no stack it is in: stacked before or after a
/// filter, the stack filters as that filter alone.
pub proof fn law_noop_is_neutral<I, O>(f: spec_fn(I) -> PreFilterResult<I, O>, g: spec_fn(O) -> PostFilterResult<O>)
    ensures
        stacked_pre(noop_pre(), f) == f,
        stacked_pre(f, noop_pre()) == f,
        stacked_post(noop_post(), g) == g,
        stacked_post(g, noop_post()) == g,
{
    assert(stacked_pre(noop_pre(), f) =~= f);
    assert forall|i: I| #[trigger] stacked_pre(f, noop_pre())(i) == f(i) by {
        match f(i) {
            PreFilterResult::Continue(p) => {},
            PreFilterResult::Return(o) => {},
        }
    }
    assert(stacked_pre(f, noop_pre()) =~= f);
    assert forall|o: O| #[trigger] stacked_post(noop_post(), g)(o) == g(o) by {
        match g(o) {
            PostFilterResult::Return(x) => {},
        }
    }
    assert(stacked_post(noop_post(), g) =~= g);
    assert(stacked_post(g, noop_post()) =~= g);
}

/// A stack ends an operation its first filter ends, with the first filter's output, and
/// its second filter then never sees the operation.
pub proof fn law_first_short_circuits<I, O>(
    f: spec_fn(I) -> PreFilterResult<I, O>,
    g: spec_fn(I) -> PreFilterResult<I, O>,
    i: I,
    o: O,
)
    requires
        f(i) == PreFilterResult::<I, O>::Return(o),
    ensures
        stacked_pre(f, g)(i) == PreFilterResult::<I, O>::Return(o),
{
}

/// The order a stack of `a` and `b` calls its filters in: before an operation, `a` runs on
/// the input, and `b` runs only if `a` lets the operation go on, on the input `a` handed
/// on, `b`'s answer being the stack's; after an operation, `b` runs on the output, and `a`
/// runs on what `b` handed on, `a`'s answer being the stack's.
pub proof fn law_stack_call_order<I, O>(
    a_pre: spec_fn(I) -> PreFilterResult<I, O>,
    b_pre: spec_fn(I) -> PreFilterResult<I, O>,
    a_post: spec_fn(O) -> PostFilterResult<O>,
    b_post: spec_fn(O) -> PostFilterResult<O>,
    input: I,
    output: O,
)
    ensures
        stacked_pre(a_pre, b_pre)(input) == match a_pre(input) {
            PreFilterResult::Continue(p) => b_pre(p),
            PreFilterResult::Return(r) => PreFilterResult::Return(r),
        },
        stacked_post(a_post, b_post)(output) == match b_post(output) {
            PostFilterResult::Return(x) => a_post(x),
        },
{
}

} // verus!
