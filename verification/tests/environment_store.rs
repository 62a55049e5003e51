use ship_shell::envvalue::EnvValue;
use ship_shell::environment::{
    ShellEnvironment, initialize, init_from_parent, get_var, set_var, unset_var, contains_var,
    var_count, all_var_keys, all_vars, set_last_exit,
};

fn pairs(kvs: &[(&str, &str)]) -> Vec<(String, String)> {
    kvs.iter().map(|(k, v)| (String::from(*k), String::from(*v))).collect()
}

#[test]
fn fresh_store_reads() {
    let env = ShellEnvironment::new();
    assert_eq!(env.len(), 0);
    // The exit slot starts at zero.
    assert!(matches!(env.get("?"), Some(EnvValue::Integer(0))));
    // Process identity is always readable.
    assert!(matches!(env.get("$"), Some(EnvValue::Integer(_))));
    assert!(matches!(env.get("PPID"), Some(EnvValue::Integer(_))));
    assert!(matches!(env.get("OLDPWD"), Some(EnvValue::Nil)));
    assert!(env.get("NOPE").is_none());
}

#[test]
fn set_get_unset() {
    let mut env = ShellEnvironment::new();
    env.set(String::from("FOO"), EnvValue::Integer(1));
    assert!(matches!(env.get("FOO"), Some(EnvValue::Integer(1))));
    env.set(String::from("FOO"), EnvValue::Bool(true));
    assert!(matches!(env.get("FOO"), Some(EnvValue::Bool(true))));
    assert_eq!(env.len(), 1);
    let removed = env.unset("FOO");
    assert!(matches!(removed, Some(EnvValue::Bool(true))));
    assert!(env.get("FOO").is_none());
    assert_eq!(env.len(), 0);
}

#[test]
fn distinguished_keys_are_routed_and_not_exported() {
    let mut env = ShellEnvironment::new();
    env.set(String::from("PS1"), EnvValue::Text(String::from(">> ")));
    assert!(matches!(env.get("PS1"), Some(EnvValue::Text(t)) if t == ">> "));
    // Reserved slots are invisible to enumeration and to the envp.
    assert_eq!(env.len(), 0);
    assert_eq!(env.to_envp().len(), 0);
    assert!(!env.contains_key("PS1"));
    // And cannot be removed.
    assert!(env.unset("PS1").is_none());
    assert!(matches!(env.get("PS1"), Some(EnvValue::Text(_))));
}

#[test]
fn exit_slot_updates() {
    let mut env = ShellEnvironment::new();
    env.set_last_exit(7);
    assert!(matches!(env.get("?"), Some(EnvValue::Integer(7))));
    set_last_exit(&mut env, 0);
    assert!(matches!(env.get("?"), Some(EnvValue::Integer(0))));
}

#[test]
fn to_envp_lines() {
    let mut env = ShellEnvironment::new();
    env.set(String::from("A"), EnvValue::Integer(3));
    env.set(String::from("B"), EnvValue::Nil);
    let lines: Vec<String> = env.to_envp();
    assert_eq!(lines.len(), 2);
    assert!(lines.contains(&String::from("A=3")));
    // Empty projections are still emitted.
    assert!(lines.contains(&String::from("B=")));
}

#[test]
fn dir_stack_ops() {
    let mut env = ShellEnvironment::new();
    assert!(env.pop_dir().is_none());
    env.push_dir(String::from("/a"));
    env.push_dir(String::from("/b"));
    assert_eq!(env.dir_stack().len(), 2);
    assert_eq!(env.pop_dir().unwrap(), "/b");
    assert_eq!(env.pop_dir().unwrap(), "/a");
    assert!(env.pop_dir().is_none());
}

#[test]
fn from_parent_parses_values() {
    let env = init_from_parent(&pairs(&[
        ("PATH", "/usr/bin:/bin"),
        ("COUNT", "3"),
        ("NAME", "world"),
    ]));
    match env.get("PATH") {
        Some(EnvValue::List(items)) => assert_eq!(items.len(), 2),
        other => panic!("expected a list for PATH, got {:?}", other.is_some()),
    }
    assert!(matches!(env.get("COUNT"), Some(EnvValue::Integer(3))));
    assert!(matches!(env.get("NAME"), Some(EnvValue::Text(_))));
}

#[test]
fn initialize_defaults() {
    let env = initialize(&pairs(&[]), Some("/home/me"), Some("/tmp"));
    assert!(matches!(env.get("HOME"), Some(EnvValue::FilePath(p)) if p == "/home/me"));
    // PWD was absent, so it comes from the working directory.
    assert!(matches!(env.get("PWD"), Some(EnvValue::FilePath(p)) if p == "/tmp"));
    // PATH was absent, so the platform default list stands.
    match env.get("PATH") {
        Some(EnvValue::List(items)) => {
            assert_eq!(items.len(), 2);
            assert!(matches!(&items[0], EnvValue::FilePath(p) if p == "/usr/bin"));
            assert!(matches!(&items[1], EnvValue::FilePath(p) if p == "/bin"));
        },
        _ => panic!("expected the default PATH list"),
    }
    // SHLVL was absent: zero.
    assert!(matches!(env.get("SHLVL"), Some(EnvValue::Integer(0))));
}

#[test]
fn initialize_keeps_inherited_and_increments_shlvl() {
    let env = initialize(
        &pairs(&[("PWD", "/work"), ("PATH", "/bin"), ("SHLVL", "2")]),
        Some("/home/me"),
        Some("/elsewhere"),
    );
    assert!(matches!(env.get("PWD"), Some(EnvValue::FilePath(p)) if p == "/work"));
    assert!(matches!(env.get("PATH"), Some(EnvValue::FilePath(p)) if p == "/bin"));
    assert!(matches!(env.get("SHLVL"), Some(EnvValue::Integer(3))));
}

#[test]
fn initialize_without_home() {
    let env = initialize(&pairs(&[]), None, None);
    assert!(matches!(env.get("HOME"), Some(EnvValue::Nil)));
    assert!(matches!(env.get("PWD"), Some(EnvValue::Nil)));
}

#[test]
fn free_function_api() {
    let mut env = ShellEnvironment::new();
    set_var(&mut env, String::from("X"), EnvValue::Integer(9));
    assert!(matches!(get_var(&env, "X"), Some(EnvValue::Integer(9))));
    assert!(contains_var(&env, "X"));
    assert_eq!(var_count(&env), 1);
    assert_eq!(all_var_keys(&env), vec![String::from("X")]);
    let vars = all_vars(&env);
    assert_eq!(vars.len(), 1);
    assert_eq!(vars[0].0, "X");
    assert!(matches!(unset_var(&mut env, "X"), Some(EnvValue::Integer(9))));
    assert!(!contains_var(&env, "X"));
}
