//! A small note-keeping library: a note store with a derived full-text
//! search index, a two-stage deletion lifecycle (trash, restore, purge),
//! and an idempotent schema initializer.
pub mod laws;
pub mod policy;
pub mod store;
pub mod text;
