//! TidyDog: a file-organising assistant's safety core and rule engine.

pub mod text;
pub mod model;
pub mod risk;
pub mod path;
pub mod scope;
pub mod ops;
pub mod clock;
pub mod gate;
pub mod testing;
pub mod organizer;
pub mod rule_change;
pub mod wiki;
pub mod llm;
pub mod content;
pub mod summary;
pub mod reader;
pub mod keyutil;
pub mod agent;
pub mod service;
pub mod store;
pub mod scanner;
pub mod fileops;

pub use content::{ContentBudget, ContentChunk, ContentReader, ReaderError};
pub use gate::{Engine, ExecOutcome, GateError, UNDO_WINDOW};
pub use model::{Action, Conflict, Denial, JournalEntry, Plan, PlanOp, PlanStatus, PreviewLevel};
pub use ops::{FileOps, Store};
pub use risk::preview_level;
pub use scope::{Guard, ScopeGuard};
pub use summary::{SummaryError, SummaryHints, SummaryResult, Summarizer};
