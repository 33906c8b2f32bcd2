use tidydog::summary::summary_from_reply;
use tidydog::agent::{
    content_gate, dispatch_refusal, ends_turn, extract_text, last_assistant_text,
    missing_input_message, reply_step, route_tool, tool_call_gate, tool_catalog, ChatMessage,
    ContentBlock, ContentTool, LoopBudget, ReplyStep, ToolRoute, MAX_STEPS,
};
use tidydog::content::{ContentBudget, ReaderError};
use tidydog::fileops::{copy_verdict, ContentHasher, FsFileOps};
use tidydog::keyutil::get_api_key;
use tidydog::llm::{after_failure, backoff_delay, classify_status, ApiError, ApiErrorKind, RetryStep, MAX_ATTEMPTS};
use tidydog::model::Denial;
use tidydog::reader::{chunk_from_reply, first_reply_line, SidecarReader, SidecarReply};
use tidydog::scanner::{count_dirs, dir_node, file_node, file_record, guess_mime, is_hidden_entry, order_entries, EntryInfo};
use tidydog::service::{gate_err_to_str, op_from_input, ops_from_inputs, recovery_for, OpInput, Recovery};
use tidydog::store::{json_str, serde_ops};
use tidydog::summary::{consent_granted, summarize_gate, summary_error_of, summary_request_text, SummaryError, SummaryHints, SummaryResult};
use tidydog::{Action, Conflict, GateError, PlanOp};

fn block(t: &str, text: Option<&str>) -> ContentBlock {
    ContentBlock { block_type: t.to_string(), text: text.map(|s| s.to_string()) }
}

#[test]
fn catalog_has_the_seven_tools() {
    let names: Vec<String> = tool_catalog().into_iter().map(|t| t.name).collect();
    assert_eq!(
        names,
        vec!["scan_directory", "list_files", "read_content", "summarize", "propose_plan", "propose_rule_change", "undo"]
    );
    for t in tool_catalog() {
        assert!(t.input_schema.starts_with("{\"type\":\"object\""), "{}", t.input_schema);
    }
}

#[test]
fn undo_is_refused_by_loop_and_routing() {
    assert!(tool_call_gate("undo").unwrap().contains("I2"));
    assert_eq!(tool_call_gate("scan_directory"), None);
    assert_eq!(route_tool("undo"), ToolRoute::Undo);
    let msg = dispatch_refusal("undo").unwrap();
    assert!(msg.contains("I2") || msg.contains("자율"));
    assert_eq!(dispatch_refusal("nope"), Some("알 수 없는 도구: nope".to_string()));
    assert_eq!(dispatch_refusal("list_files"), None);
}

#[test]
fn routes_and_missing_inputs() {
    assert_eq!(route_tool("propose_plan"), ToolRoute::ProposePlan);
    assert!(ends_turn(ToolRoute::ProposePlan));
    assert!(ends_turn(ToolRoute::ProposeRuleChange));
    assert!(!ends_turn(ToolRoute::ScanDirectory));
    assert_eq!(missing_input_message(ToolRoute::ProposePlan), Some("propose_plan: 'ops' 없음".to_string()));
    assert_eq!(missing_input_message(ToolRoute::ListFiles), None);
}

#[test]
fn reply_steps() {
    let blocks = vec![block("text", Some("a")), block("tool_use", None), block("text", Some("b"))];
    assert_eq!(extract_text(&blocks), "a\nb");
    match reply_step("tool_use", &blocks) {
        ReplyStep::RunTools(v) => assert_eq!(v, vec![1]),
        _ => panic!("expected tools"),
    }
    match reply_step("end_turn", &blocks) {
        ReplyStep::Finish(t) => assert_eq!(t, "a\nb"),
        _ => panic!("expected finish"),
    }
    let prose = vec![block("text", Some("long"))];
    match reply_step("max_tokens", &prose) {
        ReplyStep::Nudge(m) => assert!(m.contains("max_tokens")),
        _ => panic!("expected nudge"),
    }
    match reply_step("tool_use", &prose) {
        ReplyStep::Finish(t) => assert_eq!(t, "long"),
        _ => panic!("expected finish"),
    }
}

#[test]
fn last_text_or_step_limit_note() {
    let msgs = vec![
        ChatMessage { role: "assistant".to_string(), blocks: Some(vec![block("text", Some("old"))]) },
        ChatMessage { role: "user".to_string(), blocks: Some(vec![block("text", Some("q"))]) },
        ChatMessage { role: "assistant".to_string(), blocks: Some(vec![block("tool_use", None)]) },
    ];
    assert_eq!(last_assistant_text(&msgs), "old");
    assert_eq!(last_assistant_text(&[]), "최대 10단계에 도달했습니다.");
}

#[test]
fn budget_grants_at_most_max_steps() {
    let mut b = LoopBudget::new();
    let mut granted = 0;
    for _ in 0..25 {
        if b.try_step() {
            granted += 1;
        }
    }
    assert_eq!(granted, MAX_STEPS);
    assert_eq!(b.steps_taken(), MAX_STEPS);
}

#[test]
fn content_gate_orders_consent_before_scope() {
    let denied: Result<String, Denial> = Err(Denial::OutsideScope);
    let err = content_gate(ContentTool::ReadContent, false, &denied, "/r").unwrap_err();
    assert!(err.contains("N1/G1"));
    let err = content_gate(ContentTool::ReadContent, true, &denied, "/r").unwrap_err();
    assert_eq!(err, "read_content 범위 거부 (G2/G3): OutsideScope — 사용자 지정 범위(/r) 내 파일만 읽을 수 있습니다.");
    let err = content_gate(ContentTool::Summarize, true, &Err(Denial::Blacklisted), "/r").unwrap_err();
    assert_eq!(err, "summarize 범위 거부 (G2/G3): Blacklisted");
    assert!(content_gate(ContentTool::Summarize, true, &Ok("/r/a".to_string()), "/r").is_ok());
}

#[test]
fn http_status_classes() {
    assert_eq!(classify_status(200), None);
    assert_eq!(classify_status(429), Some(ApiErrorKind::RateLimited));
    assert_eq!(classify_status(529), Some(ApiErrorKind::Overloaded));
    assert_eq!(classify_status(401), Some(ApiErrorKind::Auth));
    assert_eq!(classify_status(403), Some(ApiErrorKind::Auth));
    assert_eq!(classify_status(503), Some(ApiErrorKind::ServerError));
    assert_eq!(classify_status(404), Some(ApiErrorKind::Client));
}

#[test]
fn backoff_doubles_and_caps() {
    assert_eq!(backoff_delay(0), 1000);
    assert_eq!(backoff_delay(1), 2000);
    assert_eq!(backoff_delay(6), 64000);
    assert_eq!(backoff_delay(30), 64000);
}

#[test]
fn retry_decisions() {
    assert_eq!(after_failure(ApiErrorKind::Overloaded, 0, MAX_ATTEMPTS), RetryStep::Retry { next_attempt: 1, delay_ms: 1000 });
    assert_eq!(after_failure(ApiErrorKind::Overloaded, 2, MAX_ATTEMPTS), RetryStep::GiveUp);
    assert_eq!(after_failure(ApiErrorKind::Auth, 0, MAX_ATTEMPTS), RetryStep::GiveUp);
    assert_eq!(after_failure(ApiErrorKind::Network, 0, 0), RetryStep::GiveUp);
}

#[test]
fn retry_loop_makes_at_most_max_attempts() {
    let mut attempts = 0u32;
    let mut attempt_no = 0u32;
    loop {
        attempts += 1;
        match after_failure(ApiErrorKind::ServerError, attempt_no, MAX_ATTEMPTS) {
            RetryStep::Retry { next_attempt, .. } => attempt_no = next_attempt,
            RetryStep::GiveUp => break,
        }
    }
    assert_eq!(attempts, MAX_ATTEMPTS);
}

#[test]
fn user_messages_per_kind() {
    let msg = |kind| ApiError { kind, request_id: None, detail: "raw".to_string() }.user_message();
    assert_eq!(msg(ApiErrorKind::RateLimited), msg(ApiErrorKind::Overloaded));
    assert_eq!(msg(ApiErrorKind::Network), "네트워크 연결을 확인해주세요.");
    assert_eq!(msg(ApiErrorKind::Client), "요청을 처리할 수 없습니다.");
    assert!(msg(ApiErrorKind::Auth).contains("API 키"));
    assert!(!msg(ApiErrorKind::Parse).contains("raw"));
}

#[test]
fn summary_gate_and_errors() {
    assert!(consent_granted(Some("true")));
    assert!(!consent_granted(Some("false")));
    assert!(!consent_granted(None));
    let cached = SummaryResult { summary: "s".to_string(), topic_tags: vec![], language: "ko".to_string() };
    assert!(matches!(summarize_gate(false, Some(cached)), Err(SummaryError::NotConsented)));
    assert!(matches!(summarize_gate(true, None), Ok(None)));
    let e = |kind| ApiError { kind, request_id: None, detail: "d".to_string() };
    assert!(matches!(summary_error_of(e(ApiErrorKind::Overloaded)), SummaryError::RateLimited));
    assert!(matches!(summary_error_of(e(ApiErrorKind::Parse)), SummaryError::ParseError(d) if d == "d"));
    match summary_error_of(e(ApiErrorKind::Network)) {
        SummaryError::ApiError(m) => assert_eq!(m, "네트워크 연결을 확인해주세요."),
        _ => panic!(),
    }
    assert_eq!(SummaryError::NotConsented.message(), "user has not consented to cloud content processing");
    assert_eq!(SummaryError::ParseError("x".to_string()).message(), "parse error: x");
}

#[test]
fn summary_request_names_the_file() {
    let hints = SummaryHints { filename: "notes".to_string(), ext: Some("txt".to_string()), content_hash: None };
    let t = summary_request_text(&hints, "hello");
    assert!(t.starts_with("Analyze this file and respond with JSON only (no markdown). File: notes.txt\n\nContent:\nhello\n\n"));
}

#[test]
fn reader_rules() {
    let r = SidecarReader::new("python3".to_string(), "/s/reader.py".to_string());
    assert!(r.supports_ext("pdf") && r.supports_ext("md") && r.supports_ext("rst") && r.supports_ext("txt"));
    assert!(!r.supports_ext("docx"));
    assert_eq!(first_reply_line("  {\"text\":\"x\"}  \nmore").unwrap(), "{\"text\":\"x\"}");
    assert!(matches!(first_reply_line("\n"), Err(ReaderError::SidecarUnavailable(m)) if m == "sidecar produced no output"));
    let err = chunk_from_reply(SidecarReply { error: Some(None), text: None, truncated: None, pages: None });
    assert!(matches!(err, Err(ReaderError::ParseFailed(m)) if m == "unknown sidecar error"));
    let c = chunk_from_reply(SidecarReply { error: None, text: Some("t".to_string()), truncated: Some(true), pages: Some(300) }).unwrap();
    assert_eq!(c.text, "t");
    assert!(c.truncated);
    assert_eq!(c.pages_read, Some(255));
    assert_eq!(ReaderError::ParseFailed("bad".to_string()).message(), "parse failed: bad");
    let b = ContentBudget::default();
    assert_eq!((b.max_chars, b.max_pages), (4096, Some(5)));
}

#[test]
fn environment_key_wins_and_is_trimmed() {
    assert_eq!(get_api_key(Some("  sk-env \n".to_string()), Some("other".to_string())).unwrap(), "sk-env");
    assert_eq!(get_api_key(Some("   ".to_string()), Some("sk-second".to_string())).unwrap(), "sk-second");
}

#[test]
fn no_key_anywhere_is_an_api_key_error() {
    let err = get_api_key(None, None).expect_err("no key");
    assert!(err.contains("API 키") || err.starts_with("keyring 오류: "), "{err}");
}

#[test]
fn gate_error_messages() {
    assert_eq!(gate_err_to_str(GateError::NoSuchPlan), "plan not found");
    assert_eq!(gate_err_to_str(GateError::OutOfUndoWindow), "plan is outside the undo window (last 5)");
    assert_eq!(
        gate_err_to_str(GateError::ScopeDenied { op_id: "op-1".to_string(), denial: Denial::Hidden }),
        "scope denied op op-1: Hidden"
    );
    assert_eq!(
        gate_err_to_str(GateError::PartialExecute { failed_op_id: "op-3".to_string(), message: "boom".to_string(), completed: 2 }),
        "partial execute: 2 ops done, failed at op-3: boom"
    );
    assert_eq!(
        gate_err_to_str(GateError::FileOp { op_id: "o".to_string(), message: "m".to_string() }),
        "file op failed for o: m"
    );
}

#[test]
fn inputs_become_plan_ops() {
    let input = |a: &str, r: Option<&str>| OpInput {
        action: a.to_string(),
        content_hash: "h".to_string(),
        from: "/s/a".to_string(),
        to: "/s/b".to_string(),
        reason: r.map(|s| s.to_string()),
    };
    let op = op_from_input(input("stage", Some("dup")));
    assert_eq!(op.action, Action::Stage);
    assert_eq!(op.reason.as_deref(), Some("dup"));
    assert_eq!(op.conflict, Conflict::NoConflict);
    let ops = ops_from_inputs(vec![input("rename", None), input("delete", None)]);
    assert_eq!(ops.len(), 2);
    assert_eq!(ops[0].action, Action::Rename);
    assert_eq!(ops[1].action, Action::Move);
}

#[test]
fn recovery_decisions() {
    assert_eq!(recovery_for(true, true), Recovery::Complete);
    assert_eq!(recovery_for(false, true), Recovery::Discard);
    assert_eq!(recovery_for(false, false), Recovery::CompleteUnknown);
}

#[test]
fn json_encodings() {
    assert_eq!(json_str("a\"b\\c"), "\"a\\\"b\\\\c\"");
    let mut op = PlanOp::new(Action::Move, "h".to_string(), "/a".to_string(), "/b".to_string());
    op.op_id = "op-1".to_string();
    op.seq = 3;
    assert_eq!(
        serde_ops(&[op]),
        "[{\"op_id\":\"op-1\",\"seq\":3,\"action\":\"move\",\"content_hash\":\"h\",\"from\":\"/a\",\"to\":\"/b\",\"conflict\":\"none\",\"reason\":null}]"
    );
    assert_eq!(serde_ops(&[]), "[]");
}

#[test]
fn scan_tree_and_order() {
    let f = file_node("/r/Doc.PDF", 10);
    assert_eq!(f.name, "Doc.PDF");
    assert_eq!(f.ext.as_deref(), Some("pdf"));
    let d = dir_node("/r/sub", vec![dir_node("/r/sub/x", vec![]), file_node("/r/sub/y.txt", 1)]);
    let root = dir_node("/r", vec![d, f]);
    assert_eq!(count_dirs(&root), 3);
    assert!(is_hidden_entry("/r/.git"));
    assert!(!is_hidden_entry("/r/a.txt"));
    let e = |n: &str, d: bool| EntryInfo { name: n.to_string(), is_dir: d };
    let ordered: Vec<(String, bool)> = order_entries(vec![e("b.txt", false), e("z", true), e("a.txt", false), e("c", true)])
        .into_iter()
        .map(|x| (x.name, x.is_dir))
        .collect();
    assert_eq!(
        ordered,
        vec![("c".to_string(), true), ("z".to_string(), true), ("a.txt".to_string(), false), ("b.txt".to_string(), false)]
    );
}

#[test]
fn mime_guesses_from_extension() {
    assert_eq!(guess_mime("/r/a.pdf"), "application/pdf");
    assert_eq!(guess_mime("/r/noext"), "application/octet-stream");
    assert_eq!(guess_mime("/r/a.unknownext"), "application/octet-stream");
    let rec = file_record("/r/A.TXT", "hash".to_string(), 5, 1, None, 2);
    assert_eq!(rec.ext.as_deref(), Some("txt"));
    assert_eq!(rec.mime, "text/plain");
}

#[test]
fn content_hash_is_hex_and_depends_on_content() {
    let mut h = ContentHasher::new();
    h.update(b"hello ");
    h.update(b"world");
    let a = h.finalize_hex();
    assert_eq!(a.len(), 64);
    assert!(a.chars().all(|c| c.is_ascii_hexdigit() && !c.is_ascii_uppercase()));
    let mut g = ContentHasher::new();
    g.update(b"hello world");
    assert_eq!(g.finalize_hex(), a);
    let mut k = ContentHasher::new();
    k.update(b"other");
    assert_ne!(k.finalize_hex(), a);
}

#[test]
fn quarantine_names_and_integrity() {
    let fs = FsFileOps::new("/data/staging".to_string());
    assert_eq!(fs.staged_path("abc", false, 9), "/data/staging/abc");
    assert_eq!(fs.staged_path("abc", true, 9), "/data/staging/abc_9");
    let names = vec!["zzz".to_string(), "abc_7".to_string(), "abc_8".to_string()];
    assert_eq!(FsFileOps::staged_candidate(&names, "abc"), Some(1));
    assert_eq!(FsFileOps::staged_candidate(&names, "abd"), None);
    assert!(copy_verdict("aa", "aa").is_ok());
    assert_eq!(copy_verdict("aa", "bb").unwrap_err(), "cross-volume copy integrity failed: src=aa dst=bb");
}

#[test]
fn content_hash_of_nothing_is_blake3_of_empty_input() {
    let h = ContentHasher::new();
    assert_eq!(h.finalize_hex(), "af1349b9f5f9a1a6a0404dea36dcc9499bcb25c9adc112b7cc9a93cae41f3262");
}

#[test]
fn summary_reply_fields() {
    let r = summary_from_reply(
        Some("요약".to_string()),
        Some(vec![Some("a".to_string()), None, Some("b".to_string())]),
        None,
    )
    .unwrap();
    assert_eq!(r.summary, "요약");
    assert_eq!(r.topic_tags, vec!["a".to_string(), "b".to_string()]);
    assert_eq!(r.language, "en");
    let e = summary_from_reply(None, None, Some("ko".to_string())).unwrap_err();
    assert_eq!(e.message(), "parse error: missing 'summary' field");
    let k = summary_from_reply(Some("s".to_string()), None, Some("ko".to_string())).unwrap();
    assert!(k.topic_tags.is_empty());
    assert_eq!(k.language, "ko");
}
