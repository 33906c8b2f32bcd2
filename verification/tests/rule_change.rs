use tidydog::rule_change::{compute_diff, validate_rule_destinations};

#[test]
fn dod6_r5_rejects_absolute_dest() {
    let content = "tag:foo -> /etc/passwd\n";
    assert!(validate_rule_destinations(content).is_err());
}

#[test]
fn dod6_r5_rejects_traversal_dest() {
    let content = "tag:foo -> ../../etc\n";
    assert!(validate_rule_destinations(content).is_err());
}

#[test]
fn r5_rejects_system_path() {
    let content = "tag:foo -> /System/Library/evil\n";
    let err = validate_rule_destinations(content).unwrap_err();
    assert!(err.contains("R5") && err.contains("절대 경로"), "got: {err}");
}

#[test]
fn r5_rejects_absolute_staging_path() {
    let content = "tag:bar -> /Users/mjwoon/.tidydog/staging\n";
    let err = validate_rule_destinations(content).unwrap_err();
    assert!(err.contains("R5"), "got: {err}");
}

#[test]
fn dod6_r5_accepts_relative_dest() {
    let content = "tag:스크린샷 -> 사진/스크린샷\ntag:세금 -> 문서/세금\n";
    assert!(validate_rule_destinations(content).is_ok());
}

#[test]
fn diff_no_change() {
    let s = "a\nb\nc\n";
    assert_eq!(compute_diff(s, s), "(변경 없음)");
}

#[test]
fn diff_add_line() {
    let before = "tag:세금 -> 문서/세금\n";
    let after = "tag:세금 -> 문서/세금\ntag:스크린샷 -> 사진/스크린샷\n";
    let d = compute_diff(before, after);
    assert!(d.contains("+ tag:스크린샷 -> 사진/스크린샷"), "{d}");
    assert!(!d.contains("- "), "{d}");
}

#[test]
fn diff_modify_line() {
    let before = "tag:세금 -> 문서/세금\n";
    let after = "tag:세금,tax -> 문서/세금\n";
    let d = compute_diff(before, after);
    assert!(d.contains("- tag:세금 -> 문서/세금"), "{d}");
    assert!(d.contains("+ tag:세금,tax -> 문서/세금"), "{d}");
}
