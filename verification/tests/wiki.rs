use tidydog::wiki::{parse_tags_json, unix_secs_to_iso};

#[test]
fn test_parse_tags_json() {
    assert_eq!(parse_tags_json(r#"["tag1","tag2"]"#), "tag1, tag2");
    assert_eq!(parse_tags_json("[]"), "");
    assert_eq!(parse_tags_json("raw_value"), "raw_value");
}

#[test]
fn test_unix_secs_to_iso() {
    assert_eq!(unix_secs_to_iso(1_700_000_000), "2023-11-14T22:13:20Z");
    assert_eq!(unix_secs_to_iso(0), "1970-01-01T00:00:00Z");
}
