//! Core of a metasearch-and-summarize backend: provider dispatch with
//! deduplication and ranking, a declarative JSON path extractor for generic
//! search APIs, a local conversation-archive search with per-conversation
//! diversity and bounded context windows, and the orchestration that turns
//! merged results into a grounded summary stream.
//!
//! All network and storage access lives outside this crate; these modules
//! work on plain values handed in by the surrounding application.

pub mod text;
pub mod json;
pub mod search;
pub mod extract;
pub mod archive;
pub mod llm;
pub mod orchestrate;
pub mod engines;
pub mod api;
