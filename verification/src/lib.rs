//! Core logic of a single-instance application launcher.
//!
//! The crate covers the entry catalog (discovery results are normalized,
//! deduplicated and given resolved icon paths), the ranking engine (fuzzy
//! ranking for a non-empty query, usage-frequency ranking otherwise), the
//! persisted usage history, the launch-command tokenizer, and the
//! activation / focus-coordination state machine that keeps one running
//! instance ready to be woken by a second invocation.

pub mod config;
pub mod entries;
pub mod focus;
pub mod history;
pub mod launcher;
pub mod rank;
pub mod text;
