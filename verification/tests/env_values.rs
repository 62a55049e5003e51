use ship_shell::envvalue::{EnvValue, parse_from_string, parse_scalar};

fn text(s: &str) -> EnvValue {
    EnvValue::Text(String::from(s))
}

#[test]
fn parse_empty_is_nil() {
    assert!(matches!(parse_from_string(""), EnvValue::Nil));
}

#[test]
fn parse_booleans_exactly() {
    assert!(matches!(parse_from_string("True"), EnvValue::Bool(true)));
    assert!(matches!(parse_from_string("False"), EnvValue::Bool(false)));
    assert!(matches!(parse_from_string("true"), EnvValue::Text(_)));
    assert!(matches!(parse_from_string("TRUE"), EnvValue::Text(_)));
}

#[test]
fn parse_integers() {
    assert!(matches!(parse_from_string("42"), EnvValue::Integer(42)));
    assert!(matches!(parse_from_string("-7"), EnvValue::Integer(-7)));
    assert!(matches!(parse_from_string("+5"), EnvValue::Integer(5)));
    assert!(matches!(parse_from_string("007"), EnvValue::Integer(7)));
    assert!(matches!(parse_from_string("0"), EnvValue::Integer(0)));
    assert!(matches!(
        parse_from_string("9223372036854775807"),
        EnvValue::Integer(9223372036854775807)
    ));
    assert!(matches!(
        parse_from_string("-9223372036854775808"),
        EnvValue::Integer(-9223372036854775808)
    ));
}

#[test]
fn parse_integer_overflow_falls_through() {
    // Too large for a 64-bit integer: not an integer, not a decimal (no
    // dot), not a path, so plain text.
    assert!(matches!(
        parse_from_string("99999999999999999999999"),
        EnvValue::Text(_)
    ));
    assert!(matches!(parse_from_string("1e5"), EnvValue::Text(_)));
}

#[test]
fn parse_decimals() {
    match parse_from_string("3.14") {
        EnvValue::Decimal(t) => assert_eq!(t, "3.14"),
        _ => panic!("expected a decimal"),
    }
    assert!(matches!(parse_from_string("-0.5"), EnvValue::Decimal(_)));
    assert!(matches!(parse_from_string(".5"), EnvValue::Decimal(_)));
    assert!(matches!(parse_from_string("1."), EnvValue::Decimal(_)));
    assert!(matches!(parse_from_string("1.2e5"), EnvValue::Decimal(_)));
    assert!(matches!(parse_from_string("1.2E-3"), EnvValue::Decimal(_)));
    // A dot alone is not a number.
    assert!(matches!(parse_from_string("."), EnvValue::Text(_)));
    assert!(matches!(parse_from_string("1.2.3"), EnvValue::Text(_)));
    assert!(matches!(parse_from_string("1.2e"), EnvValue::Text(_)));
}

#[test]
fn parse_colon_makes_lists_before_paths() {
    match parse_from_string("/usr/bin:/bin") {
        EnvValue::List(items) => {
            assert_eq!(items.len(), 2);
            assert!(matches!(&items[0], EnvValue::FilePath(p) if p == "/usr/bin"));
            assert!(matches!(&items[1], EnvValue::FilePath(p) if p == "/bin"));
        },
        _ => panic!("expected a list"),
    }
}

#[test]
fn parse_list_elements_recursively() {
    match parse_from_string("a:2:True::3.5") {
        EnvValue::List(items) => {
            assert_eq!(items.len(), 5);
            assert!(matches!(&items[0], EnvValue::Text(t) if t == "a"));
            assert!(matches!(items[1], EnvValue::Integer(2)));
            assert!(matches!(items[2], EnvValue::Bool(true)));
            assert!(matches!(items[3], EnvValue::Nil));
            assert!(matches!(&items[4], EnvValue::Decimal(t) if t == "3.5"));
        },
        _ => panic!("expected a list"),
    }
}

#[test]
fn parse_paths() {
    assert!(matches!(parse_from_string("/usr/local/bin"), EnvValue::FilePath(_)));
    assert!(matches!(parse_from_string("~/docs"), EnvValue::FilePath(_)));
    assert!(matches!(parse_from_string("./x"), EnvValue::FilePath(_)));
    assert!(matches!(parse_from_string("../y"), EnvValue::FilePath(_)));
    // A bare tilde without a slash is not a path.
    assert!(matches!(parse_from_string("~"), EnvValue::Text(_)));
    assert!(matches!(parse_from_string("hello"), EnvValue::Text(_)));
}

#[test]
fn projection_of_each_variant() {
    assert_eq!(text("abc").to_string_repr(), "abc");
    assert_eq!(EnvValue::Integer(-42).to_string_repr(), "-42");
    assert_eq!(EnvValue::Decimal(String::from("2.5")).to_string_repr(), "2.5");
    assert_eq!(EnvValue::Bool(true).to_string_repr(), "True");
    assert_eq!(EnvValue::Bool(false).to_string_repr(), "False");
    assert_eq!(EnvValue::Nil.to_string_repr(), "");
    assert_eq!(
        EnvValue::FilePath(String::from("/tmp/x")).to_string_repr(),
        "/tmp/x"
    );
    let list = EnvValue::List(vec![
        EnvValue::FilePath(String::from("/usr/bin")),
        EnvValue::FilePath(String::from("/bin")),
    ]);
    assert_eq!(list.to_string_repr(), "/usr/bin:/bin");
}

#[test]
fn projection_of_nested_list_joins_all() {
    let inner = EnvValue::List(vec![EnvValue::Integer(1), EnvValue::Integer(2)]);
    let outer = EnvValue::List(vec![inner, EnvValue::Integer(3)]);
    assert_eq!(outer.to_string_repr(), "1:2:3");
}

#[test]
fn roundtrip_canonical_values() {
    let cases = [
        "hello",
        "42",
        "-7",
        "3.14",
        "True",
        "False",
        "",
        "/usr/bin",
        "~/x",
        "/usr/bin:/bin",
        "a:2:True",
    ];
    for s in cases {
        let v = parse_from_string(s);
        let back = parse_from_string(&v.to_string_repr());
        assert!(v.equals(&back), "roundtrip failed for {:?}", s);
    }
}

#[test]
fn equals_and_duplicate() {
    let v = parse_from_string("a:2:/usr/bin");
    let w = v.duplicate();
    assert!(v.equals(&w));
    assert!(!v.equals(&EnvValue::Nil));
    assert!(!text("a").equals(&text("b")));
    assert!(EnvValue::Integer(1).equals(&EnvValue::Integer(1)));
    assert!(!EnvValue::Integer(1).equals(&EnvValue::Integer(2)));
    assert!(!EnvValue::Bool(true).equals(&EnvValue::Integer(1)));
}

#[test]
fn integer_rendering_extremes() {
    assert_eq!(
        EnvValue::Integer(i64::MIN).to_string_repr(),
        "-9223372036854775808"
    );
    assert_eq!(
        EnvValue::Integer(i64::MAX).to_string_repr(),
        "9223372036854775807"
    );
    assert_eq!(EnvValue::Integer(0).to_string_repr(), "0");
    // And both extremes read back.
    assert!(matches!(
        parse_from_string("-9223372036854775808"),
        EnvValue::Integer(i64::MIN)
    ));
}

#[test]
fn parse_scalar_ignores_lists() {
    // A piece parser never splits: used on the pieces of a split, which
    // hold no separator; on a colon text it falls back to a path here.
    assert!(matches!(parse_scalar("/usr/bin"), EnvValue::FilePath(_)));
    assert!(matches!(parse_scalar("12"), EnvValue::Integer(12)));
}
