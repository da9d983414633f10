//! Talking to language servers: the framing of messages, the routing of what
//! comes in, the conversion of edits, and the state of a session.

pub mod capabilities;
pub mod client;
pub mod convert;
pub mod error;
pub mod framing;
pub mod session;
pub mod uri;

pub use convert::{locations_to_query, to_core_workspace_edit};
pub use error::LspError;
pub use session::LspSession;
pub use uri::{path_to_file_uri, uri_to_path};
