//! Summarising a file's text: hints, results, errors, the summariser
//! interface, and the consent gate that comes before any of it.
//!
//! Nothing is summarised without the user's consent to cloud processing; a
//! summary already cached for the same content is reused.

use vstd::prelude::*;
use crate::llm::{message_for, ApiError, ApiErrorKind};
use crate::text::push_str;

verus! {

/// What goes with a chunk to the summariser.
pub struct SummaryHints {
    pub filename: String,
    pub ext: Option<String>,
    /// The content hash, used to find a cached summary.
    pub content_hash: Option<String>,
}

/// A summary: text, topic tags and a language code ("ko", "en", ...).
#[derive(Debug)]
pub struct SummaryResult {
    pub summary: String,
    pub topic_tags: Vec<String>,
    pub language: String,
}

/// Why a summary could not be made.
#[derive(Debug)]
pub enum SummaryError {
    /// The user has not consented to cloud processing.
    NotConsented,
    ApiError(String),
    ParseError(String),
    RateLimited,
}

pub open spec fn summary_error_text(e: SummaryError) -> Seq<char> {
    match e {
        SummaryError::NotConsented => "user has not consented to cloud content processing"@,
        SummaryError::ApiError(s) => "API error: "@ + s@,
        SummaryError::ParseError(s) => "parse error: "@ + s@,
        SummaryError::RateLimited => "rate limited"@,
    }
}

impl SummaryError {
    /// The error as a sentence.
    pub fn message(&self) -> (r: String)
        ensures
            r@ == summary_error_text(*self),
    {
        match self {
            SummaryError::NotConsented => "user has not consented to cloud content processing".to_string(),
            SummaryError::ApiError(s) => {
                let mut r = String::new();
                push_str(&mut r, "API error: ");
                push_str(&mut r, s.as_str());
                r
            },
            SummaryError::ParseError(s) => {
                let mut r = String::new();
                push_str(&mut r, "parse error: ");
                push_str(&mut r, s.as_str());
                r
            },
            SummaryError::RateLimited => "rate limited".to_string(),
        }
    }
}

/// Summarises chunks of file content.
pub trait Summarizer {
    /// Must answer `NotConsented` whenever `is_consented` is false.
    fn summarize(
        &self,
        chunk: &crate::content::ContentChunk,
        hints: SummaryHints,
    ) -> Result<SummaryResult, SummaryError>;

    /// Whether the user has consented to cloud processing.
    fn is_consented(&self) -> bool;
}

/// Consent is given exactly when the stored setting reads `true`.
pub fn consent_granted(setting: Option<&str>) -> (b: bool)
    ensures
        b == (setting matches Some(v) && v@ == "true"@),
{
    match setting {
        Some(v) => crate::model::str_eq(v, "true"),
        None => false,
    }
}

/// What a summariser does before it calls the service: refuse without
/// consent, else use a cached summary when there is one, else go on
/// (`Ok(None)`).
pub fn summarize_gate(consented: bool, cached: Option<SummaryResult>) -> (r: Result<
    Option<SummaryResult>,
    SummaryError,
>)
    ensures
        !consented ==> r matches Err(SummaryError::NotConsented),
        consented ==> r == Ok::<Option<SummaryResult>, SummaryError>(cached),
{
    if !consented {
        return Err(SummaryError::NotConsented);
    }
    Ok(cached)
}

/// The summariser's error for a failed service call: overload and rate
/// limits read as `RateLimited`, an unreadable response as a parse error with
/// its detail, anything else as an API error with the user's message.
pub fn summary_error_of(e: ApiError) -> (r: SummaryError)
    ensures
        match e.kind {
            ApiErrorKind::RateLimited | ApiErrorKind::Overloaded => r matches SummaryError::RateLimited,
            ApiErrorKind::Parse => (r matches SummaryError::ParseError(d) && d@ == e.detail@),
            _ => (r matches SummaryError::ApiError(m) && m@ == message_for(e.kind)),
        },
{
    match e.kind {
        ApiErrorKind::RateLimited | ApiErrorKind::Overloaded => SummaryError::RateLimited,
        ApiErrorKind::Parse => SummaryError::ParseError(e.detail),
        _ => SummaryError::ApiError(e.user_message()),
    }
}

/// The file name shown to the service: `name.ext`, or the name alone.
pub open spec fn hinted_name(filename: Seq<char>, ext: Option<Seq<char>>) -> Seq<char> {
    match ext {
        Some(e) => filename + seq!['.'] + e,
        None => filename,
    }
}

/// The request text sent to the service for one chunk.
pub fn summary_request_text(hints: &SummaryHints, chunk_text: &str) -> (r: String)
    ensures
        r@ == "Analyze this file and respond with JSON only (no markdown). File: "@ + hinted_name(
            hints.filename@,
            crate::path::opt_seq(hints.ext),
        ) + "\n\nContent:\n"@ + chunk_text@
            + "\n\nRespond ONLY with this exact JSON (no other text):\n{\"summary\": \"1-2 sentence summary\", \"topic_tags\": [\"tag1\", \"tag2\"], \"language\": \"ko\"}"@,
{
    let mut r = String::new();
    push_str(&mut r, "Analyze this file and respond with JSON only (no markdown). File: ");
    push_str(&mut r, hints.filename.as_str());
    match &hints.ext {
        Some(e) => {
            crate::text::push_char(&mut r, '.');
            push_str(&mut r, e.as_str());
        },
        None => {},
    }
    push_str(&mut r, "\n\nContent:\n");
    push_str(&mut r, chunk_text);
    push_str(
        &mut r,
        "\n\nRespond ONLY with this exact JSON (no other text):\n{\"summary\": \"1-2 sentence summary\", \"topic_tags\": [\"tag1\", \"tag2\"], \"language\": \"ko\"}",
    );
    r
}


// ───────────────────────────── the model's reply ─────────────────────────────

/// The fields of a model's reply as values: summary, tags, language.
pub type ModelFieldsV = (Option<Seq<char>>, Option<Seq<Option<Seq<char>>>>, Option<Seq<char>>);

pub open spec fn opt_text(o: Option<String>) -> Option<Seq<char>> {
    match o {
        Some(t) => Some(t@),
        None => None,
    }
}

/// The value of a model reply's fields.
pub open spec fn model_fields_view(
    summary: Option<String>,
    tags: Option<Vec<Option<String>>>,
    language: Option<String>,
) -> ModelFieldsV {
    (
        opt_text(summary),
        match tags {
            Some(v) => Some(v@.map_values(|t: Option<String>| opt_text(t))),
            None => None,
        },
        opt_text(language),
    )
}

/// The texts among tag values, in order.
pub open spec fn text_values(v: Seq<Option<Seq<char>>>) -> Seq<Seq<char>>
    decreases v.len(),
{
    if v.len() == 0 {
        Seq::empty()
    } else {
        match v.last() {
            Some(t) => text_values(v.drop_last()).push(t),
            None => text_values(v.drop_last()),
        }
    }
}

/// `r` is what a reply with fields `f` gives: without a summary text, the
/// error "missing 'summary' field"; else that summary, the text tags in order
/// (none without a tag list) and the language ("en" if absent).
pub open spec fn summary_result(r: Result<SummaryResult, SummaryError>, f: ModelFieldsV) -> bool {
    match f.0 {
        None => r matches Err(SummaryError::ParseError(m)) && m@ == "missing 'summary' field"@,
        Some(sm) => r matches Ok(res) && res.summary@ == sm && crate::model::texts(res.topic_tags@) == (
        match f.1 {
            Some(v) => text_values(v),
            None => Seq::empty(),
        }) && res.language@ == (match f.2 {
            Some(l) => l,
            None => "en"@,
        }),
    }
}

/// The summary a model's reply gives, from its fields: `summary` (text, if
/// present), `topic_tags` (each value as text, `None` where it is not text;
/// `None` for no list) and `language` (text, if present). The summary text is
/// required; tags that are not text are dropped; the language defaults to "en".
pub fn summary_from_reply(
    summary: Option<String>,
    tags: Option<Vec<Option<String>>>,
    language: Option<String>,
) -> (r: Result<SummaryResult, SummaryError>)
    ensures
        summary_result(r, model_fields_view(summary, tags, language)),
{
    let summary = match summary {
        Some(sm) => sm,
        None => {
            return Err(SummaryError::ParseError("missing 'summary' field".to_string()));
        },
    };
    let mut topic_tags: Vec<String> = Vec::new();
    match tags {
        Some(v) => {
            let mut i: usize = 0;
            assert(v@.subrange(0, 0).map_values(|t: Option<String>| opt_text(t)) =~= Seq::<Option<Seq<char>>>::empty());
            assert(crate::model::texts(topic_tags@) =~= Seq::<Seq<char>>::empty());
            while i < v.len()
                invariant
                    0 <= i <= v.len(),
                    crate::model::texts(topic_tags@) == text_values(
                        v@.subrange(0, i as int).map_values(|t: Option<String>| opt_text(t)),
                    ),
                decreases v.len() - i,
            {
                let ghost before = topic_tags@;
                let ghost next = v@.subrange(0, i + 1).map_values(|t: Option<String>| opt_text(t));
                assert(next.drop_last() =~= v@.subrange(0, i as int).map_values(|t: Option<String>| opt_text(t)));
                assert(next.last() == opt_text(v@[i as int]));
                match &v[i] {
                    Some(t) => {
                        topic_tags.push(t.clone());
                        assert(crate::model::texts(topic_tags@) =~= crate::model::texts(before).push(t@));
                    },
                    None => {},
                }
                i += 1;
            }
            assert(v@.subrange(0, v.len() as int) =~= v@);
        },
        None => {
            assert(crate::model::texts(topic_tags@) =~= Seq::<Seq<char>>::empty());
        },
    }
    let language = match language {
        Some(l) => l,
        None => "en".to_string(),
    };
    Ok(SummaryResult { summary, topic_tags, language })
}

/// The fields `serde_json` reads from the model's reply text (summary,
/// topic tags, language), or the text of its parse error.
pub uninterp spec fn model_reply_fields(text: Seq<char>) -> Result<ModelFieldsV, Seq<char>>;

/// `serde_json::from_str` on the model's reply text, and its fields read from
/// the JSON value: `summary` and `language` if strings, `topic_tags` if an
/// array (each item's text if a string). Claims the result is the named reading.
#[verifier::external_body]
fn parse_model_reply(text: &str) -> (r: Result<(Option<String>, Option<Vec<Option<String>>>, Option<String>), String>)
    ensures
        match r {
            Ok(f) => model_reply_fields(text@) == Ok::<ModelFieldsV, Seq<char>>(model_fields_view(f.0, f.1, f.2)),
            Err(m) => model_reply_fields(text@) == Err::<ModelFieldsV, Seq<char>>(m@),
        },
{
    let v: serde_json::Value = serde_json::from_str(text).map_err(|e| e.to_string())?;
    let summary = v.get("summary").and_then(|t| t.as_str()).map(|t| t.to_string());
    let tags = v.get("topic_tags").and_then(|a| a.as_array()).map(|a| a.iter().map(|t| t.as_str().map(|x| x.to_string())).collect());
    let language = v.get("language").and_then(|t| t.as_str()).map(|t| t.to_string());
    Ok((summary, tags, language))
}

/// The summary the model's answer gives: its text (`content[0].text`, `None`
/// when the answer has none) read as JSON, then as `summary_from_reply` says.
pub fn summary_from_model_text(text: Option<&str>) -> (r: Result<SummaryResult, SummaryError>)
    ensures
        text is None ==> (r matches Err(SummaryError::ParseError(m)) && m@
            == "missing content[0].text in API response"@),
        text matches Some(t) ==> match model_reply_fields(t@) {
            Err(e) => r matches Err(SummaryError::ParseError(m)) && m@ == "invalid JSON from model: "@ + e,
            Ok(f) => summary_result(r, f),
        },
{
    let t = match text {
        Some(t) => t,
        None => {
            return Err(SummaryError::ParseError("missing content[0].text in API response".to_string()));
        },
    };
    match parse_model_reply(t) {
        Ok((summary, tags, language)) => summary_from_reply(summary, tags, language),
        Err(e) => {
            let mut m = String::new();
            push_str(&mut m, "invalid JSON from model: ");
            push_str(&mut m, e.as_str());
            Err(SummaryError::ParseError(m))
        },
    }
}

} // verus!
