//! Indexing: turning what a source hands over into documents of a store.
pub mod docstring;
pub mod edges;
pub mod git;
pub mod pipeline;
pub mod prose;
pub mod run;
pub mod session;
pub mod walk;

pub use crate::indexer::edges::resolve_call_edges;
pub use crate::indexer::run::{IndexProgress, IndexReport, IndexRun, ItemOutcome};
