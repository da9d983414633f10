//! Semantics-aware code operations: the project registry, the edit model and
//! the decisions of the server that drives language backends.

pub mod backend;
pub mod edit;
pub mod error;
pub mod java;
pub mod json;
pub mod language;
pub mod locate;
pub mod lsp;
pub mod operation;
pub mod path;
pub mod project;
pub mod provider;
pub mod registry;
pub mod rust_lang;
pub mod server;
pub mod sets;
pub mod tasks;
pub mod text;
pub mod ts;
pub mod vcs;
