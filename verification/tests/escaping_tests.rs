use rspolib::escape;
use rspolib::unescape;
use std::collections::HashMap;

#[test]
fn test_escape() {
    let escapes_map: HashMap<String, &str> = HashMap::from([
        ("\\".to_string(), "\\\\"),
        ("\\t".to_string(), "\\\\t"),
        ("\\r".to_string(), "\\\\r"),
        ("\n".to_string(), "\\n"),
        ("\\n".to_string(), "\\\\n"),
        ("\\v".to_string(), "\\\\v"),
        ("\\b".to_string(), "\\\\b"),
        ("\\f".to_string(), "\\\\f"),
        ("\"".to_string(), "\\\""),
    ]);

    for (value, expected) in escapes_map {
        assert_eq!(escape(&value), expected);
    }
}

#[test]
fn test_escape_all() {
    let escapes = "foo \\ \\\\ \\t \\r bar \\n \\v \\b \\f \" baz";
    let expected = "foo \\\\ \\\\\\\\ \\\\t \\\\r bar \\\\n \\\\v \\\\b \\\\f \\\" baz";
    assert_eq!(escape(escapes), expected);
}

#[test]
fn test_unescape() {
    let escapes_map: HashMap<String, &str> = HashMap::from([
        ("\\\\".to_string(), "\\"),
        ("\\\\n".to_string(), "\\n"),
        ("\\\\t".to_string(), "\\t"),
        ("\\\\r".to_string(), "\\r"),
        ("\\\"".to_string(), "\""),
        ("\\\\v".to_string(), "\\v"),
        ("\\\\b".to_string(), "\\b"),
        ("\\\\f".to_string(), "\\f"),
    ]);

    for (value, expected) in escapes_map {
        assert_eq!(unescape(&value), expected);
    }
}

#[test]
fn test_unescape_all() {
    let escapes = "foo \\\\ \\\\\\\\ \\\\t \\\\r bar \\\\n \\\\v \\\\b \\\\f \\\" baz";
    let expected = "foo \\ \\\\ \\t \\r bar \\n \\v \\b \\f \" baz";
    assert_eq!(unescape(escapes), expected);
}
