use ship_shell::envvalue::EnvValue;
use ship_shell::resolve::{ProgramResolutionError, resolve_program_path, find_in_path, pick_first_hit};

fn path_list(dirs: &[&str]) -> EnvValue {
    EnvValue::List(
        dirs.iter().map(|d| EnvValue::FilePath(String::from(*d))).collect(),
    )
}

#[test]
fn missing_program_reports_not_found() {
    let path = path_list(&["/definitely/not/a/dir"]);
    match resolve_program_path("nosuchprog_xyzzy", Some(&path)) {
        Err(e) => {
            assert_eq!(e.exit_code(), 127);
            assert_eq!(e.message(), "nosuchprog_xyzzy: command not found");
            assert!(matches!(e, ProgramResolutionError::NotFound(_)));
        },
        Ok(_) => panic!("expected a resolution failure"),
    }
}

#[test]
fn literal_path_missing_file() {
    match resolve_program_path("/definitely/not/here/tool", None) {
        Err(e) => {
            assert_eq!(e.exit_code(), 127);
            assert_eq!(
                e.message(),
                "/definitely/not/here/tool: No such file or directory"
            );
            assert!(matches!(e, ProgramResolutionError::NoSuchFile(_)));
        },
        Ok(_) => panic!("expected a resolution failure"),
    }
}

#[test]
fn resolves_sh_from_path() {
    let path = path_list(&["/bin", "/usr/bin"]);
    match resolve_program_path("sh", Some(&path)) {
        Ok(p) => assert!(p == "/bin/sh" || p == "/usr/bin/sh"),
        Err(e) => panic!("sh should resolve: {}", e.message()),
    }
}

#[test]
fn path_as_colon_string() {
    let path = EnvValue::Text(String::from("/bin:/usr/bin"));
    assert!(resolve_program_path("sh", Some(&path)).is_ok());
}

#[test]
fn invalid_path_shapes() {
    let bad = EnvValue::Integer(3);
    match resolve_program_path("sh", Some(&bad)) {
        Err(ProgramResolutionError::InvalidPath(m)) => {
            assert_eq!(m, "PATH must be a string, path, or list");
        },
        _ => panic!("expected an invalid PATH error"),
    }
    let bad_list = EnvValue::List(vec![EnvValue::Integer(1)]);
    match resolve_program_path("sh", Some(&bad_list)) {
        Err(ProgramResolutionError::InvalidPath(m)) => {
            assert_eq!(m, "PATH list contains invalid values");
        },
        _ => panic!("expected an invalid PATH error"),
    }
}

#[test]
fn permission_denied_exit_code() {
    let e = ProgramResolutionError::PermissionDenied(String::from("x: Permission denied"));
    assert_eq!(e.exit_code(), 126);
}

#[test]
fn empty_path_segments_are_skipped() {
    let path = EnvValue::Text(String::from("::"));
    match resolve_program_path("sh", Some(&path)) {
        Err(ProgramResolutionError::NotFound(_)) => {},
        _ => panic!("nothing should resolve from empty segments"),
    }
}

#[test]
fn find_in_path_first_and_all() {
    let path = path_list(&["/bin", "/usr/bin"]);
    let first = find_in_path("sh", Some(&path), false);
    assert!(first.len() <= 1);
    if !first.is_empty() {
        assert!(first[0].ends_with("/sh"));
    }
    let all = find_in_path("sh", Some(&path), true);
    assert!(all.len() >= first.len());
    for p in &all {
        assert!(p.ends_with("/sh"));
    }
}

#[test]
fn find_in_path_skips_bad_list_items() {
    // The lenient search drops non-path items rather than failing.
    let path = EnvValue::List(vec![EnvValue::Integer(1), EnvValue::FilePath(String::from("/bin"))]);
    let hits = find_in_path("nosuchprog_xyzzy", Some(&path), true);
    assert!(hits.is_empty());
}

#[test]
fn first_hit_selection() {
    let dirs: Vec<String> = vec![String::new(), String::from("/a"), String::from("/b")];
    // An empty segment never wins, even when its probe qualified.
    assert_eq!(pick_first_hit(&dirs, &vec![true, false, true]), Some(2));
    // The earliest qualifying nonempty directory wins.
    assert_eq!(pick_first_hit(&dirs, &vec![false, true, true]), Some(1));
    assert_eq!(pick_first_hit(&dirs, &vec![true, false, false]), None);
    assert_eq!(pick_first_hit(&dirs, &vec![false, false, false]), None);
}

#[test]
fn resolution_takes_the_first_match() {
    // Both /bin/sh and /usr/bin/env exist on any useful system; with the
    // directory holding the program listed twice the first listing wins.
    let path = ship_shell::envvalue::EnvValue::Text(String::from(
        "/definitely/not/a/dir:/bin:/bin",
    ));
    if let Ok(p) = resolve_program_path("sh", Some(&path)) {
        assert_eq!(p, "/bin/sh");
    }
}
