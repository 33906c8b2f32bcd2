use tidydog::agent::{build_system_prompt, tool_catalog};

#[test]
fn i1_execute_not_in_tool_catalog() {
    let schemas = tool_catalog();
    let names: Vec<&str> = schemas.iter().map(|s| s.name.as_str()).collect();
    assert!(!names.contains(&"execute"), "names={names:?}");
    assert!(!names.contains(&"execute_plan"), "names={names:?}");
}

#[test]
fn dod4_r2_apply_rule_change_not_in_tool_catalog() {
    let schemas = tool_catalog();
    let names: Vec<&str> = schemas.iter().map(|s| s.name.as_str()).collect();
    assert!(!names.contains(&"apply_rule_change"), "names={names:?}");
}

#[test]
fn system_prompt_documents_delete_maps_to_stage() {
    let sys = build_system_prompt(Some("/tmp/x"));
    assert!(sys.contains("stage"));
    assert!(sys.contains("삭제") && sys.contains("격리"));
    assert!(sys.contains("delete") || sys.contains("영구 삭제하지 않"));
    assert!(sys.contains("list_files") && sys.contains("scan_directory"));
}

#[test]
fn system_prompt_injects_target_dir_when_present() {
    let sys = build_system_prompt(Some("/Users/me/Downloads/files"));
    assert!(sys.contains("현재 정리 대상: /Users/me/Downloads/files"));
    assert!(sys.contains("경로를 되묻지 마라"));
    assert!(sys.contains("list_files"));
}

#[test]
fn system_prompt_asks_for_folder_when_no_target() {
    let sys = build_system_prompt(None);
    assert!(sys.contains("활성 대상 폴더가 없다"));
    assert!(sys.contains("Windows") || sys.contains("C:\\"));
    assert!(!sys.contains("현재 정리 대상:"));
    assert_eq!(build_system_prompt(Some("")), build_system_prompt(None));
}
