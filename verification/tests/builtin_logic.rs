use ship_shell::builtins::{
    cd_target, cd_update_env, pwd_source, PwdSource, pushd_check, popd_pop, dirs_lines,
    exit_builtin, quit, which_parse, which, which_report,
};
use ship_shell::envvalue::EnvValue;
use ship_shell::environment::ShellEnvironment;

fn args(xs: &[&str]) -> Vec<String> {
    xs.iter().map(|x| String::from(*x)).collect()
}

#[test]
fn cd_without_args_goes_home() {
    let home = EnvValue::FilePath(String::from("/home/me"));
    let (target, echo) = cd_target(&args(&[]), Some(&home), None).unwrap();
    assert_eq!(target, "/home/me");
    assert!(!echo);
}

#[test]
fn cd_without_home_fails() {
    let e = cd_target(&args(&[]), None, None).unwrap_err();
    assert_eq!(e, "cd: HOME not set");
    let e2 = cd_target(&args(&[]), Some(&EnvValue::Integer(1)), None).unwrap_err();
    assert_eq!(e2, "cd: HOME not set");
}

#[test]
fn cd_dash_goes_back_and_echoes() {
    let old = EnvValue::FilePath(String::from("/was/here"));
    let (target, echo) = cd_target(&args(&["-"]), None, Some(&old)).unwrap();
    assert_eq!(target, "/was/here");
    assert!(echo);
    let e = cd_target(&args(&["-"]), None, None).unwrap_err();
    assert_eq!(e, "cd: OLDPWD not set");
}

#[test]
fn cd_tilde_expansion() {
    let home = EnvValue::Text(String::from("/home/me"));
    let (t1, _) = cd_target(&args(&["~"]), Some(&home), None).unwrap();
    assert_eq!(t1, "/home/me");
    let (t2, _) = cd_target(&args(&["~/docs"]), Some(&home), None).unwrap();
    assert_eq!(t2, "/home/me/docs");
    // A ~user form stays literal, but still needs HOME to be set.
    let (t3, _) = cd_target(&args(&["~other"]), Some(&home), None).unwrap();
    assert_eq!(t3, "~other");
    assert!(cd_target(&args(&["~/docs"]), None, None).is_err());
}

#[test]
fn cd_plain_path() {
    let (t, echo) = cd_target(&args(&["/tmp"]), None, None).unwrap();
    assert_eq!(t, "/tmp");
    assert!(!echo);
}

#[test]
fn cd_records_oldpwd_and_pwd() {
    let mut env = ShellEnvironment::new();
    cd_update_env(&mut env, String::from("/before"), String::from("/after"));
    assert!(matches!(env.get("OLDPWD"), Some(EnvValue::FilePath(p)) if p == "/before"));
    assert!(matches!(env.get("PWD"), Some(EnvValue::FilePath(p)) if p == "/after"));
}

#[test]
fn pwd_logical_and_physical() {
    let pwd = EnvValue::FilePath(String::from("/logical"));
    match pwd_source(&args(&[]), Some(&pwd)) {
        PwdSource::Logical(p) => assert_eq!(p, "/logical"),
        _ => panic!("expected the logical source"),
    }
    assert!(matches!(pwd_source(&args(&["-P"]), Some(&pwd)), PwdSource::Physical));
    assert!(matches!(pwd_source(&args(&[]), None), PwdSource::Physical));
}

#[test]
fn pushd_needs_argument() {
    assert_eq!(pushd_check(&args(&[])).unwrap_err(), "pushd: no directory specified");
    assert!(pushd_check(&args(&["/tmp"])).is_ok());
}

#[test]
fn popd_pops_or_fails() {
    let mut env = ShellEnvironment::new();
    assert_eq!(
        popd_pop(&mut env, &args(&["x"])).unwrap_err(),
        "popd: too many arguments"
    );
    assert_eq!(
        popd_pop(&mut env, &args(&[])).unwrap_err(),
        "popd: directory stack empty"
    );
    env.push_dir(String::from("/a"));
    assert_eq!(popd_pop(&mut env, &args(&[])).unwrap(), "/a");
}

#[test]
fn dirs_lists_current_then_stack() {
    let mut env = ShellEnvironment::new();
    env.push_dir(String::from("/a"));
    env.push_dir(String::from("/b"));
    let lines = dirs_lines(&env, &args(&[]), "/now").unwrap();
    assert_eq!(lines, vec![String::from("/now"), String::from("/a"), String::from("/b")]);
    assert_eq!(
        dirs_lines(&env, &args(&["x"]), "/now").unwrap_err(),
        "dirs: too many arguments"
    );
}

#[test]
fn exit_code_parsing() {
    assert_eq!(exit_builtin(&args(&[])), 0);
    assert_eq!(exit_builtin(&args(&["7"])), 7);
    assert_eq!(exit_builtin(&args(&["-1"])), -1);
    // A non-numeric argument yields 1.
    assert_eq!(exit_builtin(&args(&["abc"])), 1);
    assert_eq!(exit_builtin(&args(&["99999999999999999999"])), 1);
    assert_eq!(quit(&args(&["3"])), 3);
    assert_eq!(quit(&args(&[])), 0);
}

#[test]
fn which_argument_parsing() {
    let q = which_parse(&args(&["-a", "ls", "-s", "cd"]));
    assert!(q.show_all);
    assert!(q.silent);
    assert_eq!(q.programs, vec![String::from("ls"), String::from("cd")]);
}

#[test]
fn which_builtin_and_missing() {
    // Every name being a built-in gives success.
    let (code, lines, _) = which(&args(&["cd", "pwd"]), None);
    assert_eq!(code, 0);
    assert!(lines.contains(&String::from("cd: shell built-in command")));
    assert!(lines.contains(&String::from("pwd: shell built-in command")));
    // No names at all is a usage error.
    let (code2, _, err2) = which(&args(&[]), None);
    assert_eq!(code2, 1);
    assert_eq!(err2, vec![String::from("which: missing argument")]);
    // A name found nowhere fails.
    let path = EnvValue::Text(String::from("/definitely/not/a/dir"));
    let (code3, _, _) = which(&args(&["nosuchprog_xyzzy"]), Some(&path));
    assert_eq!(code3, 1);
    // Silence suppresses the report lines.
    let (code4, lines4, _) = which(&args(&["-s", "cd"]), None);
    assert_eq!(code4, 0);
    assert!(lines4.is_empty());
}

#[test]
fn which_report_exit_law() {
    // Located names: a built-in without hits, a plain name with one hit.
    let found = vec![
        (String::from("ls"), false, vec![String::from("/bin/ls")]),
        (String::from("cd"), true, Vec::new()),
    ];
    let (code, lines) = which_report(&found, false);
    assert_eq!(code, 0);
    assert_eq!(
        lines,
        vec![String::from("/bin/ls"), String::from("cd: shell built-in command")]
    );
    // One name with neither a built-in verdict nor a hit fails the run.
    let missing = vec![
        (String::from("cd"), true, Vec::new()),
        (String::from("ghost"), false, Vec::new()),
    ];
    let (code2, lines2) = which_report(&missing, false);
    assert_eq!(code2, 1);
    assert_eq!(lines2, vec![String::from("cd: shell built-in command")]);
    // Silence drops the lines but not the verdict.
    let (code3, lines3) = which_report(&missing, true);
    assert_eq!(code3, 1);
    assert!(lines3.is_empty());
}

#[test]
fn which_finds_real_programs() {
    let path = ship_shell::envvalue::EnvValue::Text(String::from("/bin:/usr/bin"));
    let (code, lines, _) = which(&args(&["sh"]), Some(&path));
    assert_eq!(code, 0);
    assert!(lines.iter().any(|l| l.ends_with("/sh")));
    // A built-in queried with -a reports the notice and keeps exit 0.
    let (code2, lines2, _) = which(&args(&["-a", "cd"]), Some(&path));
    assert_eq!(code2, 0);
    assert!(lines2.contains(&String::from("cd: shell built-in command")));
}

#[test]
fn which_missing_argument_diagnostic() {
    let (code, out, err) = which(&args(&[]), None);
    assert_eq!(code, 1);
    assert!(out.is_empty());
    assert_eq!(err, vec![String::from("which: missing argument")]);
    // Silent suppresses even the usage diagnostic.
    let (code2, out2, err2) = which(&args(&["-s"]), None);
    assert_eq!(code2, 1);
    assert!(out2.is_empty());
    assert!(err2.is_empty());
}
