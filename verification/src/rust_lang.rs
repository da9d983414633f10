//! Rust, by way of rust-analyzer.
pub mod error;
pub mod operations;
pub mod provider;
