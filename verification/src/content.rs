//! Reading the text of a file for summarising: the budget that bounds what is
//! read, the chunk that comes back, and the reader interface.
//!
//! A reader only reads: it never changes or moves the file.

use vstd::prelude::*;
use crate::text::push_str;

verus! {

/// How much of a file may be read: at most `max_chars` characters and, for a
/// paged document, at most `max_pages` pages.
pub struct ContentBudget {
    pub max_chars: usize,
    pub max_pages: Option<u8>,
}

impl Default for ContentBudget {
    /// 4096 characters, 5 pages.
    fn default() -> (b: Self)
        ensures
            b.max_chars == 4096,
            b.max_pages == Some(5u8),
    {
        ContentBudget { max_chars: 4096, max_pages: Some(5) }
    }
}

/// The text read from a file.
#[derive(Debug)]
pub struct ContentChunk {
    pub text: String,
    /// The pages actually read, for a paged document.
    pub pages_read: Option<u8>,
    /// Whether the budget cut the text short.
    pub truncated: bool,
}

/// Why a file could not be read.
#[derive(Debug)]
pub enum ReaderError {
    /// The format is not supported.
    Unsupported(String),
    /// The file could not be parsed (a broken document, a bad encoding).
    ParseFailed(String),
    /// The reading process could not be run.
    SidecarUnavailable(String),
}

pub open spec fn reader_error_text(e: ReaderError) -> Seq<char> {
    match e {
        ReaderError::Unsupported(s) => "unsupported format: "@ + s@,
        ReaderError::ParseFailed(s) => "parse failed: "@ + s@,
        ReaderError::SidecarUnavailable(s) => "sidecar unavailable: "@ + s@,
    }
}

impl ReaderError {
    /// The error as a sentence.
    pub fn message(&self) -> (r: String)
        ensures
            r@ == reader_error_text(*self),
    {
        let mut r = String::new();
        match self {
            ReaderError::Unsupported(s) => {
                push_str(&mut r, "unsupported format: ");
                push_str(&mut r, s.as_str());
            },
            ReaderError::ParseFailed(s) => {
                push_str(&mut r, "parse failed: ");
                push_str(&mut r, s.as_str());
            },
            ReaderError::SidecarUnavailable(s) => {
                push_str(&mut r, "sidecar unavailable: ");
                push_str(&mut r, s.as_str());
            },
        }
        r
    }
}

/// Reads the text of a file within a budget, without changing the file.
pub trait ContentReader {
    fn read_content(&self, path: &str, budget: ContentBudget) -> Result<ContentChunk, ReaderError>;

    /// Whether this reader handles files with extension `ext` (lower case, no dot).
    fn supports_ext(&self, ext: &str) -> bool;
}

} // verus!
