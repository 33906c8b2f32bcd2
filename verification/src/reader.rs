//! The content reader that runs an external reading script: which files it
//! handles, and how its one-line JSON reply becomes a chunk or an error.
//!
//! Running the script is the caller's part; this module decides what its
//! output means.

use vstd::prelude::*;
use crate::content::{ContentChunk, ReaderError};
use crate::text::{chars_of, lines, lines_of, push_str, string_of, trim, trim_chars};

verus! {

/// A reader that drives `script_path` with `python_bin` over a one-line
/// JSON request and reply on standard input and output.
pub struct SidecarReader {
    pub python_bin: String,
    pub script_path: String,
}

impl SidecarReader {
    pub fn new(python_bin: String, script_path: String) -> (r: Self)
        ensures
            r.python_bin@ == python_bin@,
            r.script_path@ == script_path@,
    {
        SidecarReader { python_bin, script_path }
    }

    /// The script reads plain text, Markdown, reStructuredText and PDF.
    pub fn supports_ext(&self, ext: &str) -> (b: bool)
        ensures
            b == (ext@ == "txt"@ || ext@ == "md"@ || ext@ == "rst"@ || ext@ == "pdf"@),
    {
        crate::model::str_eq(ext, "txt") || crate::model::str_eq(ext, "md") || crate::model::str_eq(
            ext,
            "rst",
        ) || crate::model::str_eq(ext, "pdf")
    }
}

/// The fields of the script's reply, as read from its JSON: `error` is
/// `Some` when the field is present and not null (holding its text when it is
/// a string); `pages` is `None` when absent, null or not a number.
pub struct SidecarReply {
    pub error: Option<Option<String>>,
    pub text: Option<String>,
    pub truncated: Option<bool>,
    pub pages: Option<u64>,
}

/// The first line of the script's output, trimmed.
pub open spec fn first_line(out: Seq<char>) -> Seq<char> {
    let ls = lines(out);
    if ls.len() > 0 {
        trim(ls[0])
    } else {
        Seq::empty()
    }
}

/// The reply line of the script's output; an error when there is none.
pub fn first_reply_line(stdout: &str) -> (r: Result<String, ReaderError>)
    ensures
        first_line(stdout@).len() == 0 ==> (r matches Err(ReaderError::SidecarUnavailable(m)) && m@
            == "sidecar produced no output"@),
        first_line(stdout@).len() > 0 ==> (r matches Ok(l) && l@ == first_line(stdout@)),
{
    let v = chars_of(stdout);
    let ls = lines_of(&v);
    let line = if ls.len() > 0 {
        assert(ls@[0]@ == lines(stdout@)[0]);
        trim_chars(&ls[0])
    } else {
        Vec::new()
    };
    if line.len() == 0 {
        Err(ReaderError::SidecarUnavailable("sidecar produced no output".to_string()))
    } else {
        Ok(string_of(&line))
    }
}

/// A page count as a byte, capped at 255.
pub open spec fn capped_pages(n: u64) -> u8 {
    if n > 255 {
        255
    } else {
        n as u8
    }
}

/// The fields of a reply as values: error, text, truncated, pages.
pub type ReplyFieldsV = (Option<Option<Seq<char>>>, Option<Seq<char>>, Option<bool>, Option<u64>);

pub open spec fn opt_text(o: Option<String>) -> Option<Seq<char>> {
    match o {
        Some(t) => Some(t@),
        None => None,
    }
}

/// The value of a reply's fields.
pub open spec fn reply_view(r: SidecarReply) -> ReplyFieldsV {
    (
        match r.error {
            Some(e) => Some(opt_text(e)),
            None => None,
        },
        opt_text(r.text),
        r.truncated,
        r.pages,
    )
}

/// `r` is what a reply with fields `f` gives: the error it reports (its text,
/// or "unknown sidecar error"), else its text (empty if absent), whether it
/// was cut short (no if absent) and its page count capped at 255.
pub open spec fn reply_result(r: Result<ContentChunk, ReaderError>, f: ReplyFieldsV) -> bool {
    match f.0 {
        Some(e) => r matches Err(ReaderError::ParseFailed(m)) && m@ == (match e {
            Some(t) => t,
            None => "unknown sidecar error"@,
        }),
        None => r matches Ok(c) && c.text@ == (match f.1 {
            Some(t) => t,
            None => Seq::empty(),
        }) && c.truncated == (match f.2 {
            Some(b) => b,
            None => false,
        }) && c.pages_read == (match f.3 {
            Some(n) => Some(capped_pages(n)),
            None => None::<u8>,
        }),
    }
}

/// The chunk a reply describes, or the error it reports.
pub fn chunk_from_reply(reply: SidecarReply) -> (r: Result<ContentChunk, ReaderError>)
    ensures
        reply_result(r, reply_view(reply)),
{
    match reply.error {
        Some(e) => {
            let msg = match e {
                Some(t) => t,
                None => "unknown sidecar error".to_string(),
            };
            return Err(ReaderError::ParseFailed(msg));
        },
        None => {},
    }
    let text = match reply.text {
        Some(t) => t,
        None => String::new(),
    };
    let truncated = match reply.truncated {
        Some(b) => b,
        None => false,
    };
    let pages_read = match reply.pages {
        Some(n) => Some(
            if n > 255 {
                255u8
            } else {
                n as u8
            },
        ),
        None => None,
    };
    Ok(ContentChunk { text, pages_read, truncated })
}

/// The fields `serde_json` reads from a reply line (see `SidecarReply`), or
/// the text of its parse error.
pub uninterp spec fn reply_fields(line: Seq<char>) -> Result<ReplyFieldsV, Seq<char>>;

/// `serde_json::from_str` on a reply line, and the reply's fields read from
/// the JSON value: `error` when present and not null (its text if a string),
/// `text` if a string, `truncated` if a boolean, `pages` if an unsigned
/// number. Claims the result is the named reading of the line.
#[verifier::external_body]
fn parse_reply_line(line: &str) -> (r: Result<SidecarReply, String>)
    ensures
        match r {
            Ok(rep) => reply_fields(line@) == Ok::<ReplyFieldsV, Seq<char>>(reply_view(rep)),
            Err(m) => reply_fields(line@) == Err::<ReplyFieldsV, Seq<char>>(m@),
        },
{
    let v: serde_json::Value = serde_json::from_str(line).map_err(|e| e.to_string())?;
    let error = match v.get("error") {
        None | Some(serde_json::Value::Null) => None,
        Some(e) => Some(e.as_str().map(|t| t.to_string())),
    };
    let text = v.get("text").and_then(|t| t.as_str()).map(|t| t.to_string());
    Ok(SidecarReply { error, text, truncated: v.get("truncated").and_then(|b| b.as_bool()), pages: v.get("pages").and_then(|n| n.as_u64()) })
}

/// What the script's output means: its first line, read as the JSON reply.
pub fn chunk_from_output(stdout: &str) -> (r: Result<ContentChunk, ReaderError>)
    ensures
        first_line(stdout@).len() == 0 ==> (r matches Err(ReaderError::SidecarUnavailable(m)) && m@
            == "sidecar produced no output"@),
        first_line(stdout@).len() > 0 ==> match reply_fields(first_line(stdout@)) {
            Err(e) => r matches Err(ReaderError::ParseFailed(m)) && m@ == "invalid JSON from sidecar: "@ + e,
            Ok(f) => reply_result(r, f),
        },
{
    let line = first_reply_line(stdout)?;
    match parse_reply_line(line.as_str()) {
        Ok(reply) => chunk_from_reply(reply),
        Err(e) => {
            let mut m = String::new();
            push_str(&mut m, "invalid JSON from sidecar: ");
            push_str(&mut m, e.as_str());
            Err(ReaderError::ParseFailed(m))
        },
    }
}

} // verus!
