use ship_shell::envvalue::EnvValue;
use ship_shell::environment::ShellEnvironment;
use ship_shell::overlay::{EnvOverlay, with_env_enter, with_env_exit};

fn text(s: &str) -> EnvValue {
    EnvValue::Text(String::from(s))
}

#[test]
fn overlay_insert_and_override() {
    let mut o = EnvOverlay::new();
    assert_eq!(o.len(), 0);
    o.insert(String::from("A"), text("1"));
    o.insert(String::from("B"), text("2"));
    o.insert(String::from("A"), text("3"));
    assert_eq!(o.len(), 2);
    let items = o.items();
    let a = items.iter().find(|(k, _)| k == "A").unwrap();
    assert!(matches!(&a.1, EnvValue::Text(t) if t == "3"));
}

#[test]
fn overlay_merge_prefers_new() {
    let mut base = EnvOverlay::new();
    base.insert(String::from("A"), text("old"));
    base.insert(String::from("B"), text("keep"));
    let mut over = EnvOverlay::new();
    over.insert(String::from("A"), text("new"));
    over.insert(String::from("C"), text("add"));
    let merged = base.merged(&over);
    let items = merged.items();
    assert_eq!(items.len(), 3);
    let a = items.iter().find(|(k, _)| k == "A").unwrap();
    assert!(matches!(&a.1, EnvValue::Text(t) if t == "new"));
    let b = items.iter().find(|(k, _)| k == "B").unwrap();
    assert!(matches!(&b.1, EnvValue::Text(t) if t == "keep"));
    let c = items.iter().find(|(k, _)| k == "C").unwrap();
    assert!(matches!(&c.1, EnvValue::Text(t) if t == "add"));
}

#[test]
fn with_env_applies_then_restores() {
    let mut env = ShellEnvironment::new();
    env.set(String::from("KEEP"), text("before"));
    let mut overlay = EnvOverlay::new();
    overlay.insert(String::from("FOO"), text("1"));
    overlay.insert(String::from("KEEP"), text("shadow"));

    let saved = with_env_enter(&mut env, &overlay);
    // During the scope the overlay is visible.
    assert!(matches!(env.get("FOO"), Some(EnvValue::Text(t)) if t == "1"));
    assert!(matches!(env.get("KEEP"), Some(EnvValue::Text(t)) if t == "shadow"));

    // The inner execution may scribble on the very same keys.
    env.set(String::from("FOO"), text("scribbled"));
    env.set(String::from("KEEP"), text("scribbled"));

    with_env_exit(&mut env, &saved);
    // Afterwards every overlaid key reads as before the scope.
    assert!(env.get("FOO").is_none());
    assert!(matches!(env.get("KEEP"), Some(EnvValue::Text(t)) if t == "before"));
}

#[test]
fn with_env_leaves_no_trace_of_fresh_keys() {
    let mut env = ShellEnvironment::new();
    let mut overlay = EnvOverlay::new();
    overlay.insert(String::from("FOO"), text("1"));
    let saved = with_env_enter(&mut env, &overlay);
    assert!(env.contains_key("FOO"));
    with_env_exit(&mut env, &saved);
    assert!(!env.contains_key("FOO"));
    assert_eq!(env.len(), 0);
}

#[test]
fn with_env_scoping_survives_exit_code_updates() {
    // A nested execution updates the exit slot; overlaid keys still
    // come back exactly.
    let mut env = ShellEnvironment::new();
    env.set(String::from("X"), text("orig"));
    let mut overlay = EnvOverlay::new();
    overlay.insert(String::from("X"), text("temp"));
    let saved = with_env_enter(&mut env, &overlay);
    env.set_last_exit(42);
    with_env_exit(&mut env, &saved);
    assert!(matches!(env.get("X"), Some(EnvValue::Text(t)) if t == "orig"));
    // The exit slot is not part of the overlay and keeps its update.
    assert!(matches!(env.get("?"), Some(EnvValue::Integer(42))));
}
