use tidydog::agent::{content_gate, ContentTool, LoopBudget, MAX_STEPS};
use tidydog::scope::make_guard;
use tidydog::Guard;

fn verdict(root: &str, path: &str) -> Result<String, tidydog::Denial> {
    make_guard(vec![root.to_string()], "/home/u").check(path)
}

#[test]
fn g1_read_content_blocked_without_consent() {
    let msg = content_gate(ContentTool::ReadContent, false, &verdict("/tmp", "/tmp/test.txt"), "/tmp").unwrap_err();
    assert!(msg.contains("동의") || msg.contains("N1") || msg.contains("G1"), "got: {msg}");
}

#[test]
fn g1_summarize_blocked_without_consent() {
    let msg = content_gate(ContentTool::Summarize, false, &verdict("/tmp", "/tmp/test.txt"), "/tmp").unwrap_err();
    assert!(msg.contains("동의") || msg.contains("N1") || msg.contains("G1"), "got: {msg}");
}

#[test]
fn g2_read_content_outside_root_blocked() {
    let v = verdict("/tmp/allowed_subdir", "/tmp/outside_scope.txt");
    let msg = content_gate(ContentTool::ReadContent, true, &v, "/tmp/allowed_subdir").unwrap_err();
    assert!(msg.contains("G2") || msg.contains("범위") || msg.contains("OutsideScope"), "got: {msg}");
}

#[test]
fn g3_read_content_blacklisted_path_blocked() {
    let v = verdict("/usr", "/usr/local/test.txt");
    let msg = content_gate(ContentTool::ReadContent, true, &v, "/usr").unwrap_err();
    assert!(msg.contains("G3") || msg.contains("Blacklisted"), "got: {msg}");
}

#[test]
fn i4_max_steps_terminates_loop() {
    let mut budget = LoopBudget::new();
    let mut calls = 0;
    while budget.try_step() {
        calls += 1;
        assert!(calls <= 1000, "the budget must run out");
    }
    assert_eq!(calls, MAX_STEPS);
    assert_eq!(budget.steps_taken(), MAX_STEPS);
}
