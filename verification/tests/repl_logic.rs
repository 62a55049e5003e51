use ship_shell::repl_core::{
    REPLState, ShipPrompt, ReplBuffer, ReplStep, EvalOutcome, DispatchAction, get_repl_state,
    set_primary_prompt, get_primary_prompt, set_continuation_prompt, get_continuation_prompt,
    set_right_prompt, get_right_prompt, set_statement_checker, set_code_executor,
    is_complete_statement, get_hooks, register_before_prompt_hook, register_before_execute_hook,
    register_before_continuation_hook, register_after_execute_hook, unregister_before_prompt_hook,
    unregister_before_continuation_hook, unregister_before_execute_hook,
    unregister_after_execute_hook, list_before_prompt_hook_ids, list_before_continuation_hook_ids,
    list_before_execute_hook_ids, list_after_execute_hook_ids, fire_before_prompt_hooks,
    fire_before_continuation_hooks, fire_before_execute_hooks, fire_after_execute_hooks,
    line_dispatch, report_exit_code, exit_code_line,
};

#[test]
fn default_prompts() {
    let state = get_repl_state();
    assert_eq!(get_primary_prompt(&state), "ship> ");
    assert_eq!(get_continuation_prompt(&state), "..... ");
    assert_eq!(get_right_prompt(&state), "");
}

#[test]
fn prompts_are_tunable() {
    let mut state = get_repl_state();
    set_primary_prompt(&mut state, String::from("$ "));
    set_continuation_prompt(&mut state, String::from("> "));
    set_right_prompt(&mut state, String::from("[r]"));
    assert_eq!(get_primary_prompt(&state), "$ ");
    assert_eq!(get_continuation_prompt(&state), "> ");
    assert_eq!(get_right_prompt(&state), "[r]");
}

#[test]
fn prompt_rendering_resets_color() {
    let state = get_repl_state();
    let mut p = ShipPrompt::new();
    assert_eq!(p.render_prompt_left(&state), "\u{1b}[0mship> ");
    p.is_continuation = true;
    assert_eq!(p.render_prompt_left(&state), "\u{1b}[0m..... ");
    assert_eq!(p.render_prompt_right(&state), "\u{1b}[0m");
}

#[test]
fn checker_and_executor_registration() {
    let mut state = get_repl_state();
    assert!(!state.checker_registered);
    set_statement_checker(&mut state);
    set_code_executor(&mut state);
    assert!(state.checker_registered);
    assert!(state.executor_registered);
    // With no verdict available, a statement counts as complete.
    assert!(is_complete_statement(&state, None));
    assert!(is_complete_statement(&state, Some(true)));
    assert!(!is_complete_statement(&state, Some(false)));
}

#[test]
fn hook_ids_are_fresh_and_ordered() {
    let mut reg = get_hooks();
    let a = register_before_prompt_hook(&mut reg);
    let b = register_before_prompt_hook(&mut reg);
    let c = register_before_prompt_hook(&mut reg);
    assert!(a < b && b < c);
    assert_eq!(list_before_prompt_hook_ids(&reg), vec![a, b, c]);
    // Each hook kind has its own id space.
    let d = register_before_execute_hook(&mut reg);
    assert_eq!(d, a);
    assert_eq!(list_before_execute_hook_ids(&reg), vec![d]);
}

#[test]
fn hooks_unregister_by_id() {
    let mut reg = get_hooks();
    let a = register_before_prompt_hook(&mut reg);
    let b = register_before_prompt_hook(&mut reg);
    assert!(unregister_before_prompt_hook(&mut reg, a));
    assert_eq!(list_before_prompt_hook_ids(&reg), vec![b]);
    // A second removal of the same id reports failure.
    assert!(!unregister_before_prompt_hook(&mut reg, a));
    assert_eq!(list_before_prompt_hook_ids(&reg), vec![b]);
}

#[test]
fn all_four_hook_kinds() {
    let mut reg = get_hooks();
    let a = register_before_prompt_hook(&mut reg);
    let b = register_before_continuation_hook(&mut reg);
    let c = register_before_execute_hook(&mut reg);
    let d = register_after_execute_hook(&mut reg);
    assert_eq!(fire_before_prompt_hooks(&reg), vec![a]);
    assert_eq!(fire_before_continuation_hooks(&reg), vec![b]);
    assert_eq!(fire_before_execute_hooks(&reg), vec![c]);
    assert_eq!(fire_after_execute_hooks(&reg), vec![d]);
    assert!(unregister_before_continuation_hook(&mut reg, b));
    assert!(unregister_before_execute_hook(&mut reg, c));
    assert!(unregister_after_execute_hook(&mut reg, d));
    assert_eq!(list_before_continuation_hook_ids(&reg), Vec::<u64>::new());
    assert_eq!(list_before_execute_hook_ids(&reg), Vec::<u64>::new());
    assert_eq!(list_after_execute_hook_ids(&reg), Vec::<u64>::new());
}

#[test]
fn buffer_joins_lines_until_complete() {
    let mut buf = ReplBuffer::new();
    buf.absorb_line("if x:");
    match buf.take_if_complete(false) {
        ReplStep::NotComplete => {},
        _ => panic!("expected an incomplete statement"),
    }
    buf.absorb_line("    y");
    match buf.take_if_complete(true) {
        ReplStep::Execute(code) => assert_eq!(code, "if x:\n    y"),
        _ => panic!("expected an executable statement"),
    }
    // The buffer is clear again.
    match buf.take_if_complete(true) {
        ReplStep::Blank => {},
        _ => panic!("expected a blank statement"),
    }
}

#[test]
fn blank_statements_are_skipped() {
    let mut buf = ReplBuffer::new();
    buf.absorb_line("   \t ");
    assert!(matches!(buf.take_if_complete(true), ReplStep::Blank));
}

#[test]
fn interrupt_clears_buffer() {
    let mut buf = ReplBuffer::new();
    buf.absorb_line("partial");
    buf.interrupt();
    assert!(matches!(buf.take_if_complete(true), ReplStep::Blank));
}

#[test]
fn dispatch_policy() {
    assert_eq!(line_dispatch(&EvalOutcome::RunnableValue), DispatchAction::AutoRun);
    assert_eq!(
        line_dispatch(&EvalOutcome::OtherValue { is_null: false }),
        DispatchAction::PrintRepr
    );
    assert_eq!(
        line_dispatch(&EvalOutcome::OtherValue { is_null: true }),
        DispatchAction::Nothing
    );
    assert_eq!(line_dispatch(&EvalOutcome::EvalError), DispatchAction::RunAsStatement);
}

#[test]
fn exit_code_reporting() {
    assert!(!report_exit_code(0));
    assert!(report_exit_code(7));
    assert_eq!(exit_code_line(7), "Exit code: 7");
    assert_eq!(exit_code_line(127), "Exit code: 127");
}
