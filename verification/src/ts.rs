//! TypeScript and JavaScript, by way of the TypeScript language server.
pub mod error;
pub mod operations;
pub mod provider;
pub mod server;
