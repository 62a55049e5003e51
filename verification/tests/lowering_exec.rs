use ship_shell::command_spec::{
    CommandSpec, BuiltinKind, ShellResult, WaitOutcome, get_builtin, lower, exit_code_of_wait,
    redirect_open_plan, plan_pipeline,
};
use ship_shell::runnable::{prog, cmd, pipe_compose, Runnable};

fn command(name: &str, args: &[&str]) -> Runnable {
    cmd(
        prog(String::from(name)),
        args.iter().map(|a| String::from(*a)).collect(),
    )
}

#[test]
fn builtin_registry() {
    assert!(matches!(get_builtin("cd"), Some(BuiltinKind::Cd)));
    assert!(matches!(get_builtin("pwd"), Some(BuiltinKind::Pwd)));
    assert!(matches!(get_builtin("pushd"), Some(BuiltinKind::Pushd)));
    assert!(matches!(get_builtin("popd"), Some(BuiltinKind::Popd)));
    assert!(matches!(get_builtin("dirs"), Some(BuiltinKind::Dirs)));
    assert!(matches!(get_builtin("exit"), Some(BuiltinKind::Exit)));
    assert!(matches!(get_builtin("quit"), Some(BuiltinKind::Quit)));
    assert!(matches!(get_builtin("which"), Some(BuiltinKind::Which)));
    assert!(get_builtin("ls").is_none());
    assert!(get_builtin("").is_none());
}

#[test]
fn lowering_resolves_builtins() {
    let c = lower(&command("cd", &["/tmp"]));
    match &c {
        CommandSpec::Builtin { name, builtin, args } => {
            assert_eq!(name, "cd");
            assert!(matches!(builtin, BuiltinKind::Cd));
            assert_eq!(args, &vec![String::from("/tmp")]);
        },
        _ => panic!("expected a builtin node"),
    }
    let e = lower(&command("echo", &["hi"]));
    assert!(matches!(&e, CommandSpec::Command { program, .. } if program == "echo"));
}

#[test]
fn lowering_keeps_pipeline_shape() {
    let p = pipe_compose(&command("cd", &[]), &command("wc", &[])).unwrap();
    match &lower(&p) {
        CommandSpec::Pipeline { predecessors, final_cmd } => {
            assert_eq!(predecessors.len(), 1);
            assert!(matches!(&predecessors[0], CommandSpec::Builtin { .. }));
            assert!(matches!(final_cmd.as_ref(), CommandSpec::Command { .. }));
        },
        _ => panic!("expected a pipeline"),
    }
}

#[test]
fn wait_status_mapping() {
    assert_eq!(exit_code_of_wait(&WaitOutcome::Exited { code: 0 }), 0);
    assert_eq!(exit_code_of_wait(&WaitOutcome::Exited { code: 7 }), 7);
    assert_eq!(exit_code_of_wait(&WaitOutcome::Exited { code: 255 }), 255);
    // A child killed by signal s exits as 128 + s.
    assert_eq!(exit_code_of_wait(&WaitOutcome::Signaled { signal: 9 }), 137);
    assert_eq!(exit_code_of_wait(&WaitOutcome::Signaled { signal: 15 }), 143);
}

#[test]
fn shell_result_exit_codes() {
    assert_eq!(ShellResult::ExitOnly { exit_code: 3 }.exit_code(), 3);
    assert_eq!(
        ShellResult::Captured { exit_code: 9, stdout_fd: 10, stderr_fd: 11 }.exit_code(),
        9
    );
}

#[test]
fn redirect_open_modes() {
    let truncating = redirect_open_plan(false);
    assert!(truncating.write && truncating.create && truncating.truncate && !truncating.append);
    let appending = redirect_open_plan(true);
    assert!(appending.write && appending.create && !appending.truncate && appending.append);
}

#[test]
fn pipeline_wiring() {
    let preds = vec![
        lower(&command("seq", &["1", "3"])),
        lower(&command("sort", &[])),
    ];
    let fin = lower(&command("wc", &["-l"]));
    let plan = plan_pipeline(&preds, &fin);
    assert_eq!(plan.pipe_count, 2);
    assert_eq!(plan.wirings.len(), 3);
    // First stage: no stdin pipe, writes pipe 0.
    assert_eq!(plan.wirings[0].stdin_pipe, None);
    assert_eq!(plan.wirings[0].stdout_pipe, Some(0));
    // Middle stage: reads pipe 0, writes pipe 1.
    assert_eq!(plan.wirings[1].stdin_pipe, Some(0));
    assert_eq!(plan.wirings[1].stdout_pipe, Some(1));
    // Final stage: reads the last pipe, inherits stdout, forks (not a
    // builtin).
    assert_eq!(plan.wirings[2].stdin_pipe, Some(1));
    assert_eq!(plan.wirings[2].stdout_pipe, None);
    assert!(!plan.wirings[2].run_in_parent);
}

#[test]
fn final_builtin_runs_in_parent() {
    let preds = vec![lower(&command("seq", &["1", "3"]))];
    let fin = lower(&command("dirs", &[]));
    let plan = plan_pipeline(&preds, &fin);
    assert!(plan.wirings[1].run_in_parent);
}
