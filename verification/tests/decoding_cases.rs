use tidydog::content::ReaderError;
use tidydog::model::{Action, Conflict, PlanOp};
use tidydog::organizer::{derive_dest, derive_dest_lowered, parse_rules, Condition, FileAttrs, OrganizerRule};
use tidydog::reader::chunk_from_output;
use tidydog::rule_change::proposal_from_model_text;
use tidydog::store::{ops_from_json, serde_ops, stored_texts, texts_json};
use tidydog::summary::summary_from_model_text;

#[test]
fn sidecar_output_is_read_as_one_json_line() {
    let c = chunk_from_output("{\"text\":\"hello\",\"truncated\":true,\"pages\":300}\nnoise").unwrap();
    assert_eq!(c.text, "hello");
    assert!(c.truncated);
    assert_eq!(c.pages_read, Some(255));
    match chunk_from_output("{\"error\":\"broken pdf\"}") {
        Err(ReaderError::ParseFailed(m)) => assert_eq!(m, "broken pdf"),
        _ => panic!("expected the reported error"),
    }
    match chunk_from_output("{\"error\":null,\"text\":\"x\"}") {
        Ok(c) => assert_eq!(c.text, "x"),
        Err(e) => panic!("unexpected {}", e.message()),
    }
    match chunk_from_output("not json") {
        Err(ReaderError::ParseFailed(m)) => assert!(m.starts_with("invalid JSON from sidecar: ")),
        _ => panic!("expected a parse failure"),
    }
    match chunk_from_output("   \n") {
        Err(ReaderError::SidecarUnavailable(m)) => assert_eq!(m, "sidecar produced no output"),
        _ => panic!("expected no output"),
    }
}

#[test]
fn model_summary_text_is_read_as_json() {
    let r = summary_from_model_text(Some("{\"summary\":\"s\",\"topic_tags\":[\"a\",1,\"b\"],\"language\":\"ko\"}")).unwrap();
    assert_eq!(r.summary, "s");
    assert_eq!(r.topic_tags, vec!["a".to_string(), "b".to_string()]);
    assert_eq!(r.language, "ko");
    assert_eq!(
        summary_from_model_text(None).unwrap_err().message(),
        "parse error: missing content[0].text in API response"
    );
    assert!(summary_from_model_text(Some("{oops")).unwrap_err().message().starts_with("parse error: invalid JSON from model: "));
    assert_eq!(
        summary_from_model_text(Some("{\"language\":\"en\"}")).unwrap_err().message(),
        "parse error: missing 'summary' field"
    );
}

#[test]
fn rule_proposal_text_is_read_as_json() {
    let (content, cards) = proposal_from_model_text(Some(
        "{\"new_content\":\"ext:png -> 사진\",\"summary_cards\":[{\"kind\":\"add\",\"description\":\"d\",\"rule_line\":\"ext:png -> 사진\"},{\"kind\":\"add\"},{\"kind\":\"delete\",\"description\":\"e\"}]}",
    ))
    .unwrap();
    assert_eq!(content, "ext:png -> 사진");
    assert_eq!(cards.len(), 2);
    assert_eq!(cards[0].rule_line.as_deref(), Some("ext:png -> 사진"));
    assert_eq!(cards[1].kind, "delete");
    assert_eq!(cards[1].rule_line, None);
    assert_eq!(proposal_from_model_text(Some("{\"summary_cards\":[]}")).unwrap_err(), "LLM 응답에 'new_content' 없음");
    assert_eq!(proposal_from_model_text(None).unwrap_err(), "LLM 응답에서 텍스트 없음");
    assert!(proposal_from_model_text(Some("x")).unwrap_err().starts_with("LLM JSON 파싱 실패: "));
}

#[test]
fn stored_operations_round_trip() {
    let mut op = PlanOp::new(Action::Stage, "h".to_string(), "/s/a".to_string(), "/s/b".to_string());
    op.op_id = "p-0".to_string();
    op.seq = 3;
    op.conflict = Conflict::Rename;
    let json = serde_ops(&[op.with_reason("dup".to_string())]);
    let back = ops_from_json(&json);
    assert_eq!(back.len(), 1);
    assert_eq!(back[0].op_id, "p-0");
    assert_eq!(back[0].seq, 3);
    assert_eq!(back[0].action, Action::Stage);
    assert_eq!(back[0].conflict, Conflict::Rename);
    assert_eq!(back[0].reason.as_deref(), Some("dup"));
    assert!(ops_from_json(" [] ").is_empty());
    assert!(ops_from_json("{\"a\":1}").is_empty());
    assert_eq!(ops_from_json("[{\"op_id\":\"x\"},{\"op_id\":\"y\",\"seq\":1,\"action\":\"move\",\"content_hash\":\"h\",\"from\":\"a\",\"to\":\"b\"}]").len(), 1);
}

#[test]
fn stored_text_lists_round_trip() {
    let v = vec!["재무".to_string(), "a\"b".to_string()];
    let j = texts_json(&v);
    assert_eq!(stored_texts(&j), v);
    assert!(stored_texts("not json").is_empty());
    assert_eq!(texts_json(&Vec::new()), "[]");
}

#[test]
fn rule_matching_on_lowered_values_and_ignoring_case() {
    let rules = vec![OrganizerRule { conditions: vec![Condition::Tag(vec!["finance".to_string()])], dest: "문서/재무".to_string() }];
    let tags = vec!["finance".to_string()];
    let low = FileAttrs { filename: "report.pdf", ext: "pdf", topic_tags: &tags, language: "ko" };
    assert_eq!(derive_dest_lowered(&rules, &low).as_deref(), Some("문서/재무"));
    let parsed = parse_rules("tag:Finance name:Report -> 문서/재무\n");
    let upper = vec!["FINANCE".to_string()];
    let attrs = FileAttrs { filename: "Q3-REPORT.PDF", ext: "PDF", topic_tags: &upper, language: "KO" };
    assert_eq!(derive_dest(&parsed, &attrs).as_deref(), Some("문서/재무"));
}
