use superwork::json::{as_number, as_string, get_in, parse_json, Json};

fn error_of(input: &str) -> String {
    match parse_json(input) {
        Ok(_) => panic!("{input} parses"),
        Err(e) => e,
    }
}

#[test]
fn json_reads_nested_values() {
    let v = parse_json(" {\"a\": [1, -2.5e3, true, null], \"b\": {\"c\": \"x\"}} rest").unwrap();
    assert_eq!(as_string(get_in(v.get("b"), "c")), Some("x".to_string()));
    match v.get("a") {
        Some(Json::Array(items)) => {
            assert_eq!(items.len(), 4);
            assert_eq!(as_number(Some(&items[0])), Some("1".to_string()));
            assert_eq!(as_number(Some(&items[1])), Some("-2.5e3".to_string()));
            assert!(matches!(items[2], Json::Bool(true)));
            assert!(matches!(items[3], Json::Null));
        }
        _ => panic!("an array"),
    }
    assert!(v.get("z").is_none());
}

#[test]
fn json_strings_are_unescaped() {
    let v = parse_json("\"a\\\"b\\\\c\\/d\\n\\t\\r\\b\\f\\u00e9\\u20ac\"").unwrap();
    assert_eq!(
        as_string(Some(&v)),
        Some("a\"b\\c/d\n\t\r\u{8}\u{c}\u{e9}\u{20ac}".to_string())
    );
    // A surrogate stands for no character; an unknown escape for itself
    let w = parse_json("\"x\\ud83dy\\q\"").unwrap();
    assert_eq!(as_string(Some(&w)), Some("xy\\q".to_string()));
}

#[test]
fn json_errors_say_where() {
    assert_eq!(error_of(""), "unexpected end of input");
    assert_eq!(error_of("\"abc"), "unterminated string");
    assert_eq!(error_of("\"abc\\"), "unterminated string escape");
    assert_eq!(error_of("\"\\u12"), "incomplete unicode escape");
    assert_eq!(error_of("{\"a\":1"), "unterminated object");
    assert_eq!(error_of("[1"), "unterminated array");
    assert_eq!(error_of("{\"a\" 1}"), "expected ':' at 5");
    assert_eq!(error_of("[1 2]"), "expected ',' or ']' at 3");
    assert_eq!(error_of("{\"a\":1 2}"), "expected ',' or '}' at 7");
    assert_eq!(error_of("nil"), "expected null at 0");
    assert_eq!(error_of("tru"), "expected bool at 0");
    assert_eq!(error_of("-"), "invalid number: -");
}

#[test]
fn json_takes_the_first_of_equal_keys() {
    let v = parse_json("{\"a\":\"one\",\"a\":\"two\"}").unwrap();
    assert_eq!(as_string(v.get("a")), Some("one".to_string()));
    assert_eq!(as_string(Some(&Json::Null)), None);
    assert_eq!(as_number(v.get("a")), None);
}

#[test]
fn json_names_unexpected_characters() {
    assert_eq!(error_of("?"), "unexpected char '?' at position 0");
    assert_eq!(error_of("[1, }"), "unexpected char '}' at position 4");
    assert_eq!(error_of("\"\\uzzzz\""), "invalid unicode escape: \\uzzzz");
    // Offsets count bytes
    assert_eq!(error_of("[\"\u{20ac}\" x]"), "expected ',' or ']' at 7");
}
