use tidydog::llm::{ApiError, ApiErrorKind};

#[test]
fn is_retryable_classification() {
    for k in [ApiErrorKind::Overloaded, ApiErrorKind::RateLimited, ApiErrorKind::ServerError, ApiErrorKind::Network] {
        assert!(k.is_retryable(), "{k:?}");
    }
    for k in [ApiErrorKind::Auth, ApiErrorKind::Client, ApiErrorKind::Parse] {
        assert!(!k.is_retryable(), "{k:?}");
    }
}

#[test]
fn user_message_hides_raw_detail_and_request_id() {
    let e = ApiError {
        kind: ApiErrorKind::Overloaded,
        request_id: Some("req_abc123".into()),
        detail: "{\"type\":\"error\",\"error\":{\"type\":\"overloaded_error\"}}".into(),
    };
    let msg = e.user_message();
    assert!(msg.contains("혼잡"));
    assert!(!msg.contains("error"));
    assert!(!msg.contains("req_abc123"));
}
