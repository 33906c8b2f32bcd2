# TidyDog

TidyDog is a file-organising assistant. It scans a folder, lets a language
model propose a plan (moves, renames, quarantines), and carries the plan out
only after the user has confirmed it. Nothing is ever deleted: a quarantine
moves a file into a staging folder, and the last five executed plans can be
undone.

## Layout

- `src/` is the library, verified with Verus:
  - `gate.rs`: the safety core (`Engine`): propose, confirm, execute
    (journal first, one operation at a time, no overwrite), undo (latest
    first, within the undo window), with the proof that undo gives back every
    path that existed before the plan ran.
  - `scope.rs`: the scope guard (roots, block-list, hidden components).
  - `model.rs`, `ops.rs`, `risk.rs`: plans, the journal, the store and file
    operation interfaces, preview levels.
  - `organizer.rs`, `rule_change.rs`: the `ORGANIZER.md` rule language
    (first match wins), rule-change checks and diffs.
  - `agent.rs`, `llm.rs`, `summary.rs`, `content.rs`, `reader.rs`: the
    decisions of the agent loop, the tool catalogue, consent and scope gates,
    retries, summaries and the reading script's replies.
  - `scanner.rs`, `fileops.rs`, `wiki.rs`, `store.rs`, `service.rs`,
    `keyutil.rs`: scan trees and index records, quarantine names and content
    hashes, the wiki pages, JSON encodings, crash recovery, the API key.
  - `testing.rs`: verified in-memory store and file operations.
- `tests/`: the test suite, run against the compiled library.
- `app/`: the application layer (SQLite, the disk, the HTTP calls, the
  reading script, the command surface), unverified.

The model to use can be set with `TIDYDOG_MODEL`; otherwise the newest Haiku
model the API key can use is taken.
