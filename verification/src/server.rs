//! The decisions of the server.
pub mod catalog;
pub mod dispatch;
pub mod error;
pub mod hosts;
pub mod mcp;
pub mod ops;
pub mod pathmap;
pub mod tenancy;
pub mod workspace;
