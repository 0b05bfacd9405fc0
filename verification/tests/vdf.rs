use darwinplay_runtime::error::AppError;
use darwinplay_runtime::vdf::parse;

#[test]
fn parses_nested_keyvalues() {
    let input = r#"
        "libraryfolders"
        {
            "0"
            {
                "path" "C:\\Program Files (x86)\\Steam"
                "apps"
                {
                    "570" "123"
                }
            }
        }
        "#;
    let parsed = parse(input).unwrap();
    let libraries = parsed.get("libraryfolders").unwrap().object().unwrap();
    let first = libraries.get("0").unwrap().object().unwrap();
    assert_eq!(first.get("path").unwrap().string(), Some("C:\\Program Files (x86)\\Steam"));
}

#[test]
fn skips_line_comments() {
    let parsed = parse("// header\n\"root\" { \"value\" \"1\" }").unwrap();
    assert_eq!(
        parsed.get("root").unwrap().object().unwrap().get("value").unwrap().string(),
        Some("1")
    );
}

#[test]
fn later_keys_replace_earlier_ones() {
    let parsed = parse("\"a\" \"1\" \"b\" \"2\" \"a\" \"3\"").unwrap();
    assert_eq!(parsed.entries.len(), 2);
    assert_eq!(parsed.get("a").unwrap().string(), Some("3"));
}

#[test]
fn reports_malformed_text() {
    assert!(matches!(parse("\"a\" {"), Err(AppError::InvalidVdf(_))));
    assert!(matches!(parse("}"), Err(AppError::InvalidVdf(_))));
    assert!(matches!(parse("\"a\""), Err(AppError::InvalidVdf(_))));
    assert!(parse("").unwrap().entries.is_empty());
    let escaped = parse(r#""k" "a\"b\\c""#).unwrap();
    assert_eq!(escaped.get("k").unwrap().string(), Some("a\"b\\c"));
}

#[test]
fn keys_come_out_in_string_order() {
    let parsed = parse("\"b\" \"1\" \"10\" { \"z\" \"1\" \"Z\" \"2\" } \"2\" \"3\" \"a\" \"4\" \"1\" \"5\"").unwrap();
    let keys: Vec<&str> = parsed.entries.iter().map(|(k, _)| k.as_str()).collect();
    assert_eq!(keys, vec!["1", "10", "2", "a", "b"]);
    let inner = parsed.get("10").unwrap().object().unwrap();
    let inner_keys: Vec<&str> = inner.entries.iter().map(|(k, _)| k.as_str()).collect();
    assert_eq!(inner_keys, vec!["Z", "z"]);
}
