use ship_shell::runnable::{
    Runnable, RedirectTarget, ComposeError, prog, cmd, sub, pipe, pipe_compose, redirect_to,
    redirect_append, redirect_fd, with_env,
};
use ship_shell::overlay::EnvOverlay;
use ship_shell::envvalue::EnvValue;

fn command(name: &str, args: &[&str]) -> Runnable {
    cmd(
        prog(String::from(name)),
        args.iter().map(|a| String::from(*a)).collect(),
    )
}

#[test]
fn command_shape() {
    let c = command("echo", &["x"]);
    match &c {
        Runnable::Command { prog, args } => {
            assert_eq!(prog, "echo");
            assert_eq!(args.len(), 1);
            assert_eq!(args[0], "x");
        },
        _ => panic!("expected a command"),
    }
}

#[test]
fn pipe_two_atoms() {
    let a = command("printf", &["hello"]);
    let b = command("tr", &["a-z", "A-Z"]);
    let p = pipe_compose(&a, &b).unwrap();
    match &p {
        Runnable::Pipeline { predecessors, final_cmd } => {
            assert_eq!(predecessors.len(), 1);
            assert!(predecessors[0].equals(&a));
            assert!(final_cmd.equals(&b));
        },
        _ => panic!("expected a pipeline"),
    }
}

#[test]
fn pipelines_stay_flat() {
    let a = command("a", &[]);
    let b = command("b", &[]);
    let c = command("c", &[]);
    let d = command("d", &[]);
    let ab = pipe_compose(&a, &b).unwrap();
    let cd = pipe_compose(&c, &d).unwrap();
    let all = pipe_compose(&ab, &cd).unwrap();
    match &all {
        Runnable::Pipeline { predecessors, final_cmd } => {
            assert_eq!(predecessors.len(), 3);
            for p in predecessors {
                assert!(!matches!(p, Runnable::Pipeline { .. }));
            }
            assert!(!matches!(final_cmd.as_ref(), Runnable::Pipeline { .. }));
        },
        _ => panic!("expected a pipeline"),
    }
}

#[test]
fn pipe_is_associative() {
    let a = command("a", &["1"]);
    let b = command("b", &[]);
    let c = command("c", &["2", "3"]);
    let left = pipe_compose(&pipe_compose(&a, &b).unwrap(), &c).unwrap();
    let right = pipe_compose(&a, &pipe_compose(&b, &c).unwrap()).unwrap();
    assert!(left.equals(&right));
}

#[test]
fn pipe_is_not_commutative() {
    let a = command("a", &[]);
    let b = command("b", &[]);
    let ab = pipe_compose(&a, &b).unwrap();
    let ba = pipe_compose(&b, &a).unwrap();
    assert!(!ab.equals(&ba));
}

#[test]
fn composing_leaves_operands_unchanged() {
    let a = command("a", &["x"]);
    let b = command("b", &["y"]);
    let a_before = a.duplicate();
    let b_before = b.duplicate();
    let _ = pipe_compose(&a, &b).unwrap();
    assert!(a.equals(&a_before));
    assert!(b.equals(&b_before));
}

#[test]
fn redirect_cannot_be_piped() {
    let a = command("a", &[]);
    let b = command("b", &[]);
    let red = redirect_to(&a, String::from("/tmp/out"));
    assert_eq!(
        pipe_compose(&red, &b).unwrap_err(),
        ComposeError::PipeFromRedirect
    );
    assert_eq!(
        pipe_compose(&b, &red).unwrap_err(),
        ComposeError::PipeIntoRedirect
    );
    assert!(ComposeError::PipeFromRedirect.message().contains("pipe from"));
    assert!(ComposeError::PipeIntoRedirect.message().contains("pipe to"));
}

#[test]
fn nary_pipe() {
    let a = command("seq", &["1", "3"]);
    let b = command("sort", &[]);
    let c = command("wc", &["-l"]);
    let rest = vec![c];
    let p = pipe(&a, &b, &rest).unwrap();
    match &p {
        Runnable::Pipeline { predecessors, .. } => assert_eq!(predecessors.len(), 2),
        _ => panic!("expected a pipeline"),
    }
}

#[test]
fn redirect_targets() {
    let a = command("echo", &["x"]);
    let t = redirect_to(&a, String::from("/tmp/ss_test_1"));
    match &t {
        Runnable::Redirect { target: RedirectTarget::FilePath { path, append }, .. } => {
            assert_eq!(path, "/tmp/ss_test_1");
            assert!(!append);
        },
        _ => panic!("expected a path redirect"),
    }
    let ap = redirect_append(&a, String::from("/tmp/log"));
    assert!(matches!(
        &ap,
        Runnable::Redirect { target: RedirectTarget::FilePath { append: true, .. }, .. }
    ));
    let fd = redirect_fd(&a, 5);
    assert!(matches!(
        &fd,
        Runnable::Redirect { target: RedirectTarget::FileDescriptor { fd: 5 }, .. }
    ));
}

#[test]
fn subshell_wraps() {
    let a = command("a", &[]);
    let s = sub(a);
    assert!(matches!(&s, Runnable::Subshell { .. }));
}

#[test]
fn with_env_wraps_and_merges() {
    let a = command("env", &[]);
    let mut o1 = EnvOverlay::new();
    o1.insert(String::from("FOO"), EnvValue::Text(String::from("1")));
    o1.insert(String::from("BAR"), EnvValue::Text(String::from("old")));
    let w1 = with_env(&a, o1);
    assert!(matches!(&w1, Runnable::WithEnv { .. }));
    // A second overlay merges rather than nesting; new keys win.
    let mut o2 = EnvOverlay::new();
    o2.insert(String::from("BAR"), EnvValue::Text(String::from("new")));
    let w2 = with_env(&w1, o2);
    match &w2 {
        Runnable::WithEnv { runnable, overlay } => {
            assert!(!matches!(runnable.as_ref(), Runnable::WithEnv { .. }));
            let items = overlay.items();
            assert_eq!(items.len(), 2);
            let bar = items.iter().find(|(k, _)| k == "BAR").unwrap();
            assert!(matches!(&bar.1, EnvValue::Text(t) if t == "new"));
        },
        _ => panic!("expected one merged overlay wrapper"),
    }
}

#[test]
fn restartable_value_lowers_identically_twice() {
    // The same expression can be handed to the executor twice; nothing in
    // lowering consumes or changes it.
    let p = pipe_compose(
        &command("echo", &["x"]),
        &command("wc", &["-c"]),
    )
    .unwrap();
    let before = p.duplicate();
    let s1 = ship_shell::command_spec::lower(&p);
    let s2 = ship_shell::command_spec::lower(&p);
    assert!(p.equals(&before));
    // Both lowerings describe the same tree.
    match (&s1, &s2) {
        (
            ship_shell::command_spec::CommandSpec::Pipeline { predecessors: p1, .. },
            ship_shell::command_spec::CommandSpec::Pipeline { predecessors: p2, .. },
        ) => {
            assert_eq!(p1.len(), p2.len());
        },
        _ => panic!("expected pipelines"),
    }
}
