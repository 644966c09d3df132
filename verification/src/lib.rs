//! The engine of a semantic index over code and documents.
//!
//! Taps ([`tap`]) bring in source items: the files of a repository, the issues
//! of a tracker, the pages of a workspace. Code is taken apart into symbols
//! ([`chunk`]); each item is summed up ([`summarize`]), turned into texts to
//! embed and then into documents ([`indexer`]), which a store keeps
//! ([`store`]). A search ([`search`]) ranks what the store finds and attaches
//! the decisions that govern it ([`decision`]); an evaluation ([`eval`])
//! measures how well it did. What all of them are set to comes from layered
//! configuration ([`config`]).
//!
//! Nothing here performs input or output. Where the engine has to wait for a
//! service it is a state machine: it says what to do next and is told what came
//! of it. Scores and other fractions are carried as bit patterns and compared
//! exactly.
pub mod ai_providers;
pub mod bytes;
pub mod chunk;
pub mod config;
pub mod decision;
pub mod embed;
pub mod eval;
pub mod globs;
pub mod hash;
pub mod http;
pub mod indexer;
pub mod json;
pub mod number;
pub mod rank;
pub mod search;
pub mod store;
pub mod summarize;
pub mod tap;
pub mod testing;
pub mod text;
pub mod textmap;
