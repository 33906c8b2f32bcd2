use tidydog::organizer::{derive_dest, parse_rules, Condition, FileAttrs};
use tidydog::rule_change::{backup_file_name, compute_diff, rule_change_id, validate_rule_destinations};

fn attrs<'a>(filename: &'a str, ext: &'a str, tags: &'a [String], language: &'a str) -> FileAttrs<'a> {
    FileAttrs { filename, ext, topic_tags: tags, language }
}

#[test]
fn malformed_lines_are_skipped() {
    let md = "tag:a b -> x\nnoarrow\nunknown:v -> y\ntag: -> z\ntag:a ->    \n -> w\ntag:ok -> good\n";
    let rules = parse_rules(md);
    assert_eq!(rules.len(), 1);
    assert_eq!(rules[0].dest, "good");
}

#[test]
fn values_are_lowercased_and_empty_values_dropped() {
    let rules = parse_rules("ext:PDF,,Txt -> docs\r\n");
    assert_eq!(rules.len(), 1);
    assert_eq!(rules[0].conditions, vec![Condition::Ext(vec!["pdf".to_string(), "txt".to_string()])]);
    assert_eq!(rules[0].dest, "docs");
}

#[test]
fn ext_and_lang_match_case_insensitively() {
    let rules = parse_rules("ext:pdf lang:KO -> 문서\n");
    let tags: Vec<String> = vec![];
    assert_eq!(derive_dest(&rules, &attrs("a.PDF", "PDF", &tags, "Ko")), Some("문서".to_string()));
    assert_eq!(derive_dest(&rules, &attrs("a.PDF", "PDF", &tags, "en")), None);
}

#[test]
fn first_match_wins_even_when_later_rules_match_better() {
    let rules = parse_rules("name:rep -> first\nname:report ext:pdf -> second\n");
    let tags: Vec<String> = vec![];
    assert_eq!(derive_dest(&rules, &attrs("report.pdf", "pdf", &tags, "en")), Some("first".to_string()));
}

#[test]
fn no_rules_no_destination() {
    let rules = parse_rules("# only a comment\n\n");
    assert!(rules.is_empty());
    let tags: Vec<String> = vec!["x".to_string()];
    assert_eq!(derive_dest(&rules, &attrs("a", "", &tags, "en")), None);
}

#[test]
fn absolute_destination_message_is_exact() {
    let err = validate_rule_destinations("tag:a -> ok\ntag:b -> /abs\ntag:c -> ../up\n").unwrap_err();
    assert_eq!(err, "규칙 거부 (R5): 목적지 '/abs' 는 절대 경로입니다. 상대 경로만 허용됩니다.");
}

#[test]
fn traversal_destination_message_is_exact() {
    let err = validate_rule_destinations("tag:a -> docs/../../etc\n").unwrap_err();
    assert_eq!(err, "규칙 거부 (R5): 목적지 'docs/../../etc' 에 경로 탐색 '..' 이 포함됩니다.");
}

#[test]
fn malformed_lines_are_not_validated() {
    assert!(validate_rule_destinations("not a rule -> /abs\n# tag:a -> /abs\n").is_ok());
}

#[test]
fn diff_same_lines_different_text() {
    assert_eq!(compute_diff("a\nb\n", "a\nb"), "(내용 동일)");
}

#[test]
fn diff_marks_only_the_middle() {
    let d = compute_diff("a\nb\nc\nd\n", "a\nx\ny\nd\n");
    assert_eq!(d, "- b\n- c\n+ x\n+ y\n");
}

#[test]
fn diff_removed_line() {
    assert_eq!(compute_diff("a\nb\n", "a\n"), "- b\n");
}

#[test]
fn diff_from_nothing() {
    assert_eq!(compute_diff("", "tag:a -> b\n"), "+ tag:a -> b\n");
}

#[test]
fn backup_and_change_ids() {
    assert_eq!(backup_file_name(1_700_000_000), "ORGANIZER.md.bak.1700000000");
    assert_eq!(rule_change_id(42), "rc-42");
}
