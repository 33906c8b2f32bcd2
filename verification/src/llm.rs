//! Calls to the language-model API: how a failed call is classified, what the
//! user is told about it, and whether and when it is tried again.
//!
//! Transient failures (overload, rate limit, server error, network) are
//! retried a bounded number of times with exponential back-off; the user sees
//! a fixed message for each kind of failure, never the raw response or the
//! request id.

use vstd::prelude::*;

verus! {

/// How many attempts a call makes at most.
pub const MAX_ATTEMPTS: u32 = 3;

/// The kinds of failure of a call.
#[derive(Debug, Clone, Copy, PartialEq, Eq, Structural)]
pub enum ApiErrorKind {
    /// 529: the service is overloaded.
    Overloaded,
    /// 429: rate limited.
    RateLimited,
    /// 5xx.
    ServerError,
    /// The request could not be sent or timed out.
    Network,
    /// 401 or 403.
    Auth,
    /// Any other 4xx.
    Client,
    /// The response could not be read.
    Parse,
}

/// A failed call. `request_id` and `detail` are for logs only.
#[derive(Debug)]
pub struct ApiError {
    pub kind: ApiErrorKind,
    pub request_id: Option<String>,
    pub detail: String,
}

pub open spec fn retryable(k: ApiErrorKind) -> bool {
    match k {
        ApiErrorKind::Overloaded | ApiErrorKind::RateLimited | ApiErrorKind::ServerError
        | ApiErrorKind::Network => true,
        _ => false,
    }
}

/// What the user is told for each kind of failure.
pub open spec fn message_for(k: ApiErrorKind) -> Seq<char> {
    match k {
        ApiErrorKind::Overloaded | ApiErrorKind::RateLimited => "AI 서버가 혼잡합니다. 잠시 후 다시 시도해주세요."@,
        ApiErrorKind::ServerError => "AI 서버에 일시적 오류가 발생했습니다. 잠시 후 다시 시도해주세요."@,
        ApiErrorKind::Network => "네트워크 연결을 확인해주세요."@,
        ApiErrorKind::Auth => "API 키가 유효하지 않습니다. 설정(⚙)에서 확인해주세요."@,
        ApiErrorKind::Client => "요청을 처리할 수 없습니다."@,
        ApiErrorKind::Parse => "AI 응답을 해석하지 못했습니다."@,
    }
}

impl ApiErrorKind {
    /// Whether a failure of this kind is worth another attempt.
    pub fn is_retryable(self) -> (b: bool)
        ensures
            b == retryable(self),
    {
        match self {
            ApiErrorKind::Overloaded | ApiErrorKind::RateLimited | ApiErrorKind::ServerError
            | ApiErrorKind::Network => true,
            _ => false,
        }
    }
}

impl ApiError {
    /// The message shown to the user: fixed per kind, so it never carries the
    /// response body or the request id.
    pub fn user_message(&self) -> (r: String)
        ensures
            r@ == message_for(self.kind),
    {
        match self.kind {
            ApiErrorKind::Overloaded | ApiErrorKind::RateLimited => {
                "AI 서버가 혼잡합니다. 잠시 후 다시 시도해주세요.".to_string()
            },
            ApiErrorKind::ServerError => {
                "AI 서버에 일시적 오류가 발생했습니다. 잠시 후 다시 시도해주세요.".to_string()
            },
            ApiErrorKind::Network => "네트워크 연결을 확인해주세요.".to_string(),
            ApiErrorKind::Auth => "API 키가 유효하지 않습니다. 설정(⚙)에서 확인해주세요.".to_string(),
            ApiErrorKind::Client => "요청을 처리할 수 없습니다.".to_string(),
            ApiErrorKind::Parse => "AI 응답을 해석하지 못했습니다.".to_string(),
        }
    }
}

/// The user's message depends on the kind of failure alone: two failures of
/// the same kind read the same, whatever their details and request ids.
pub proof fn lemma_message_ignores_detail(a: ApiError, b: ApiError)
    requires
        a.kind == b.kind,
    ensures
        message_for(a.kind) == message_for(b.kind),
{
}

/// The kind of failure an HTTP status stands for; `None` for 200.
pub open spec fn status_kind(status: u16) -> Option<ApiErrorKind> {
    if status == 200 {
        None
    } else if status == 429 {
        Some(ApiErrorKind::RateLimited)
    } else if status == 529 {
        Some(ApiErrorKind::Overloaded)
    } else if status == 401 || status == 403 {
        Some(ApiErrorKind::Auth)
    } else if 500 <= status <= 599 {
        Some(ApiErrorKind::ServerError)
    } else {
        Some(ApiErrorKind::Client)
    }
}

/// The classes of HTTP statuses: only 200 is success; every 5xx is a server
/// error except 529 (overloaded); 429 is a rate limit; 401 and 403 are
/// authentication failures; any other status is a client error. A failure is
/// worth retrying exactly when its status is 429 or in the 5xx range.
pub proof fn lemma_status_classes(s: u16)
    ensures
        status_kind(s) is None <==> s == 200,
        500 <= s <= 599 && s != 529 ==> status_kind(s) == Some(ApiErrorKind::ServerError),
        s == 529 ==> status_kind(s) == Some(ApiErrorKind::Overloaded),
        s == 429 ==> status_kind(s) == Some(ApiErrorKind::RateLimited),
        s == 401 || s == 403 ==> status_kind(s) == Some(ApiErrorKind::Auth),
        s != 200 && s != 401 && s != 403 && s != 429 && !(500 <= s <= 599) ==> status_kind(s) == Some(
            ApiErrorKind::Client,
        ),
        status_kind(s) matches Some(k) ==> (retryable(k) <==> (s == 429 || 500 <= s <= 599)),
{
}

/// Classifies the status of a response.
pub fn classify_status(status: u16) -> (r: Option<ApiErrorKind>)
    ensures
        r == status_kind(status),
        r is None <==> status == 200,
        500 <= status <= 599 && status != 529 ==> r == Some(ApiErrorKind::ServerError),
        status == 529 ==> r == Some(ApiErrorKind::Overloaded),
        status == 429 ==> r == Some(ApiErrorKind::RateLimited),
        status == 401 || status == 403 ==> r == Some(ApiErrorKind::Auth),
        status != 200 && status != 401 && status != 403 && status != 429 && !(500 <= status <= 599) ==> r
            == Some(ApiErrorKind::Client),
        r matches Some(k) ==> (retryable(k) <==> (status == 429 || 500 <= status <= 599)),
{
    if status == 200 {
        None
    } else if status == 429 {
        Some(ApiErrorKind::RateLimited)
    } else if status == 529 {
        Some(ApiErrorKind::Overloaded)
    } else if status == 401 || status == 403 {
        Some(ApiErrorKind::Auth)
    } else if 500 <= status && status <= 599 {
        Some(ApiErrorKind::ServerError)
    } else {
        Some(ApiErrorKind::Client)
    }
}

pub open spec fn two_to(n: nat) -> nat
    decreases n,
{
    if n == 0 {
        1
    } else {
        2 * two_to((n - 1) as nat)
    }
}

/// The wait before attempt `attempt_no + 1`: one second doubled per attempt,
/// at most 64 seconds.
pub open spec fn backoff_ms(attempt_no: nat) -> nat {
    1000 * two_to(if attempt_no < 6 {
        attempt_no
    } else {
        6
    })
}

/// The back-off in milliseconds after attempt `attempt_no` failed.
pub fn backoff_delay(attempt_no: u32) -> (ms: u64)
    ensures
        ms == backoff_ms(attempt_no as nat),
{
    proof {
        reveal_with_fuel(two_to, 7);
    }
    if attempt_no == 0 {
        1000
    } else if attempt_no == 1 {
        2000
    } else if attempt_no == 2 {
        4000
    } else if attempt_no == 3 {
        8000
    } else if attempt_no == 4 {
        16000
    } else if attempt_no == 5 {
        32000
    } else {
        64000
    }
}

/// What to do after an attempt failed.
#[derive(Debug, Clone, Copy, PartialEq, Eq, Structural)]
pub enum RetryStep {
    /// Wait `delay_ms`, then make attempt `next_attempt`.
    Retry { next_attempt: u32, delay_ms: u64 },
    /// Give up and return the failure.
    GiveUp,
}

/// The decision after attempt `attempt_no` (counted from 0) failed with
/// `kind`: retry when the failure is transient and this was not the last of
/// `max_attempts` attempts.
pub open spec fn retry_decision(kind: ApiErrorKind, attempt_no: u32, max_attempts: u32) -> RetryStep {
    if retryable(kind) && attempt_no + 1 < max_attempts {
        RetryStep::Retry {
            next_attempt: (attempt_no + 1) as u32,
            delay_ms: backoff_ms(attempt_no as nat) as u64,
        }
    } else {
        RetryStep::GiveUp
    }
}

/// Decides what follows a failed attempt (see `retry_decision`).
pub fn after_failure(kind: ApiErrorKind, attempt_no: u32, max_attempts: u32) -> (s: RetryStep)
    ensures
        s == retry_decision(kind, attempt_no, max_attempts),
{
    let is_last = (attempt_no as u64) + 1 >= max_attempts as u64;
    if kind.is_retryable() && !is_last {
        RetryStep::Retry { next_attempt: attempt_no + 1, delay_ms: backoff_delay(attempt_no) }
    } else {
        RetryStep::GiveUp
    }
}

/// A call is attempted at most `max(max_attempts, 1)` times: a retry is only
/// ever decided for an attempt before the last one and for a transient
/// failure, and each retry moves on to the next attempt.
pub proof fn lemma_retries_bounded(kind: ApiErrorKind, attempt_no: u32, max_attempts: u32)
    ensures
        retry_decision(kind, attempt_no, max_attempts) matches RetryStep::Retry {
            next_attempt,
            delay_ms,
        } ==> next_attempt == attempt_no + 1 && next_attempt < max_attempts && retryable(kind)
            && 1000 <= delay_ms <= 64000,
        !retryable(kind) ==> retry_decision(kind, attempt_no, max_attempts) == RetryStep::GiveUp,
{
    reveal_with_fuel(two_to, 7);
    if attempt_no < 6 {
        assert(1 <= two_to(attempt_no as nat) <= 32) by {
            reveal_with_fuel(two_to, 7);
        }
    }
}

/// How many attempts a call makes from attempt `i` on, when attempt `j`
/// fails with `outcomes[j]` (`None` for success) and each failure is followed
/// as `retry_decision` says.
pub open spec fn attempts_from(outcomes: Seq<Option<ApiErrorKind>>, i: u32, max_attempts: u32) -> nat
    decreases outcomes.len() - i,
{
    if i >= outcomes.len() {
        0
    } else {
        match outcomes[i as int] {
            None => 1,
            Some(k) => match retry_decision(k, i, max_attempts) {
                RetryStep::Retry { next_attempt, .. } => if next_attempt > i {
                    1 + attempts_from(outcomes, next_attempt, max_attempts)
                } else {
                    1
                },
                RetryStep::GiveUp => 1,
            },
        }
    }
}

/// A whole call makes at most `max_attempts` attempts (at least one), stops
/// at the first success, and makes a single attempt when the first failure
/// is not transient.
pub proof fn lemma_retry_run_bounded(outcomes: Seq<Option<ApiErrorKind>>, i: u32, max_attempts: u32)
    requires
        i < max_attempts,
        i < outcomes.len(),
    ensures
        1 <= attempts_from(outcomes, i, max_attempts) <= max_attempts - i,
        outcomes[i as int] is None ==> attempts_from(outcomes, i, max_attempts) == 1,
        outcomes[i as int] matches Some(k) && !retryable(k) ==> attempts_from(outcomes, i, max_attempts) == 1,
    decreases outcomes.len() - i,
{
    match outcomes[i as int] {
        None => {},
        Some(k) => {
            lemma_retries_bounded(k, i, max_attempts);
            match retry_decision(k, i, max_attempts) {
                RetryStep::Retry { next_attempt, .. } => {
                    if next_attempt < outcomes.len() {
                        lemma_retry_run_bounded(outcomes, next_attempt, max_attempts);
                    }
                },
                RetryStep::GiveUp => {},
            }
        },
    }
}

} // verus!
