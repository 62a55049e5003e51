//! End-to-end shapes of the literal usage scenarios, as far as the
//! library computes them: the process driver that forks and execs lives
//! outside, so these check the trees, plans and environment effects the
//! driver is handed.

use ship_shell::runnable::{Runnable, prog, cmd, pipe_compose, redirect_to};
use ship_shell::command_spec::{CommandSpec, lower, plan_pipeline, exit_code_of_wait, WaitOutcome};
use ship_shell::environment::ShellEnvironment;
use ship_shell::envvalue::EnvValue;
use ship_shell::overlay::{EnvOverlay, with_env_enter, with_env_exit};
use ship_shell::resolve::resolve_program_path;

fn command(name: &str, args: &[&str]) -> Runnable {
    cmd(
        prog(String::from(name)),
        args.iter().map(|a| String::from(*a)).collect(),
    )
}

#[test]
fn uppercase_pipeline_plan() {
    // printf hello | tr a-z A-Z: one pipe, two stages, both forked.
    let p = pipe_compose(
        &command("printf", &["hello"]),
        &command("tr", &["a-z", "A-Z"]),
    )
    .unwrap();
    match lower(&p) {
        CommandSpec::Pipeline { predecessors, final_cmd } => {
            let plan = plan_pipeline(&predecessors, &final_cmd);
            assert_eq!(plan.pipe_count, 1);
            assert_eq!(plan.wirings.len(), 2);
            assert_eq!(plan.wirings[0].stdout_pipe, Some(0));
            assert_eq!(plan.wirings[1].stdin_pipe, Some(0));
            assert!(!plan.wirings[1].run_in_parent);
        },
        _ => panic!("expected a pipeline"),
    }
}

#[test]
fn redirect_scenario_is_restartable() {
    // echo x > /tmp/ss_test_1, lowered twice for two runs: the same
    // value yields the same tree both times.
    let r = redirect_to(&command("echo", &["x"]), String::from("/tmp/ss_test_1"));
    let first = lower(&r);
    let second = lower(&r);
    match (&first, &second) {
        (
            CommandSpec::Redirect { runnable: r1, .. },
            CommandSpec::Redirect { runnable: r2, .. },
        ) => {
            assert!(matches!(r1.as_ref(), CommandSpec::Command { .. }));
            assert!(matches!(r2.as_ref(), CommandSpec::Command { .. }));
        },
        _ => panic!("expected redirects"),
    }
}

#[test]
fn exit_seven_updates_question_mark() {
    // sh -c "exit 7": the wait reports 7 and the executor records it;
    // reading ? immediately afterwards yields Integer(7).
    let mut env = ShellEnvironment::new();
    let code = exit_code_of_wait(&WaitOutcome::Exited { code: 7 });
    env.set_last_exit(code);
    assert!(matches!(env.get("?"), Some(EnvValue::Integer(7))));
}

#[test]
fn missing_program_diagnostic() {
    // nosuchprog_xyzzy: resolution fails with exit code 127 and the
    // diagnostic the child prints to stderr.
    let path = EnvValue::Text(String::from("/usr/bin:/bin"));
    let err = resolve_program_path("nosuchprog_xyzzy", Some(&path)).unwrap_err();
    assert_eq!(err.exit_code(), 127);
    assert_eq!(err.message(), "nosuchprog_xyzzy: command not found");
}

#[test]
fn with_env_exports_then_vanishes() {
    // cmd(prog("env")).with_env(FOO="1"): during the scope FOO=1 stands
    // in the envp handed to the child; after the run FOO is gone.
    let mut env = ShellEnvironment::new();
    let mut overlay = EnvOverlay::new();
    overlay.insert(String::from("FOO"), EnvValue::Text(String::from("1")));
    let saved = with_env_enter(&mut env, &overlay);
    let envp = env.to_envp();
    assert!(envp.contains(&String::from("FOO=1")));
    with_env_exit(&mut env, &saved);
    assert!(!env.contains_key("FOO"));
}

#[test]
fn seq_wc_pipeline_exit_is_final_stage() {
    // seq 1 3 | wc -l: the pipeline's exit code is the final stage's.
    let p = pipe_compose(&command("seq", &["1", "3"]), &command("wc", &["-l"])).unwrap();
    match lower(&p) {
        CommandSpec::Pipeline { predecessors, final_cmd } => {
            let plan = plan_pipeline(&predecessors, &final_cmd);
            // Only the final wiring has no stdout pipe: its status is the
            // one the driver keeps.
            assert_eq!(plan.wirings.last().unwrap().stdout_pipe, None);
            assert_eq!(exit_code_of_wait(&WaitOutcome::Exited { code: 0 }), 0);
        },
        _ => panic!("expected a pipeline"),
    }
}
