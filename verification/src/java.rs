//! Java, by way of the Eclipse JDT language server.
pub mod error;
pub mod jdtls;
pub mod lsp;
pub mod operations;
pub mod provider;
