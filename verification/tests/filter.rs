use brush_core::filter::{
    stack_post_step, stack_pre_step, FilterStack, NoOpCmdExecFilter, NoOpSourceFilter, PostFilterResult,
    PreFilterResult, StackPreStep,
};

#[test]
fn noop_filters_pass_through() {
    let f = NoOpCmdExecFilter;
    assert!(matches!(f.pre::<&str, i32>("cmd"), PreFilterResult::Continue("cmd")));
    assert!(matches!(f.post(7), PostFilterResult::Return(7)));
    let s = NoOpSourceFilter;
    assert!(matches!(s.pre::<u8, ()>(3), PreFilterResult::Continue(3)));
    assert!(matches!(s.post("out"), PostFilterResult::Return("out")));
}

#[test]
fn stack_keeps_its_filters_in_order() {
    let stack = FilterStack::new("outer", "inner");
    assert_eq!(stack.first, "outer");
    assert_eq!(stack.second, "inner");
}

#[test]
fn stack_runs_second_on_what_first_lets_through() {
    let first: PreFilterResult<String, i32> = PreFilterResult::Continue("changed".into());
    assert!(matches!(stack_pre_step(first), StackPreStep::RunSecond(s) if s == "changed"));
}

#[test]
fn stack_short_circuits_when_first_returns() {
    let first: PreFilterResult<String, i32> = PreFilterResult::Return(42);
    assert!(matches!(stack_pre_step(first), StackPreStep::Finish(42)));
}

#[test]
fn stack_hands_second_post_output_to_first() {
    assert_eq!(stack_post_step(PostFilterResult::Return("from second")), "from second");
}

#[test]
fn noop_then_stack_step_is_transparent() {
    let f = NoOpCmdExecFilter;
    assert!(matches!(stack_pre_step(f.pre::<i32, ()>(5)), StackPreStep::RunSecond(5)));
    assert_eq!(stack_post_step(f.post(9)), 9);
}
