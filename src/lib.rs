//! Task counting and idempotent progress-summary upsert for Markdown documents.
//!
//! A document's checkbox bullets are counted (`tasks`), a summary line with a
//! ten-segment progress bar is rendered (`render`), and that line is put at the
//! top and the bottom of the document, replacing an earlier one (`stats`,
//! `upsert`), keeping the document's line endings and byte-order mark
//! (`document`). `laws` proves what repeated runs and the result look like.

pub mod document;
pub mod laws;
pub mod render;
pub mod stats;
pub mod tasks;
pub mod text;
pub mod upsert;
