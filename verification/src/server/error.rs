//! What a refused call is answered.
use vstd::prelude::*;

use crate::error;
use crate::error::{Error, ErrorView};
use crate::text::same_text;

verus! {

/// The answer to a call that is refused or fails.
#[derive(Debug)]
pub enum McpError {
    /// The call is at fault; the text says why.
    InvalidParams(String),
    /// The server is at fault; the text says why.
    Internal(String),
    /// There is no resource with this URI.
    ResourceNotFound {
        /// The URI that was asked for.
        uri: String,
    },
}

/// What a [`McpError`] says.
pub enum McpErrorView {
    InvalidParams(Seq<char>),
    Internal(Seq<char>),
    ResourceNotFound { uri: Seq<char> },
}

impl View for McpError {
    type V = McpErrorView;

    open spec fn view(&self) -> McpErrorView {
        match self {
            McpError::InvalidParams(s) => McpErrorView::InvalidParams(s@),
            McpError::Internal(s) => McpErrorView::Internal(s@),
            McpError::ResourceNotFound { uri } => McpErrorView::ResourceNotFound { uri: uri@ },
        }
    }
}

/// Whether an error is the fault of the call.
pub open spec fn blames_call(e: ErrorView) -> bool {
    match e {
        ErrorView::Backend(_) => false,
        ErrorView::ConfigRead { .. } => false,
        ErrorView::ConfigWrite(_) => false,
        ErrorView::Io(_) => false,
        _ => true,
    }
}

/// What an error of the core is answered.
pub open spec fn answer_to(e: ErrorView) -> McpErrorView {
    if blames_call(e) {
        McpErrorView::InvalidParams(error::error_message(e))
    } else {
        McpErrorView::Internal(error::error_message(e))
    }
}

/// What an error of the core is answered.
pub fn into_mcp(err: &Error) -> (r: McpError)
    ensures
        r@ == answer_to(err@),
{
    let message = err.message();
    match err {
        Error::Backend(_) => McpError::Internal(message),
        Error::ConfigRead { .. } => McpError::Internal(message),
        Error::ConfigWrite(_) => McpError::Internal(message),
        Error::Io(_) => McpError::Internal(message),
        _ => McpError::InvalidParams(message),
    }
}

/// The URI of the resource that describes the workflow.
pub open spec fn skill_uri() -> Seq<char> {
    "skill://henka/refactoring"@
}

/// Whether a URI is that of the resource that describes the workflow. Any other is
/// refused.
pub fn read_resource(uri: &str) -> (r: Result<(), McpError>)
    ensures
        r is Ok == (uri@ == skill_uri()),
        r matches Err(e) ==> e@ == (McpErrorView::ResourceNotFound { uri: uri@ }),
{
    if same_text(uri, "skill://henka/refactoring") {
        Ok(())
    } else {
        Err(McpError::ResourceNotFound { uri: uri.to_owned() })
    }
}

// ---------------------------------------------------------------------------
// Laws
// ---------------------------------------------------------------------------

/// The text of an answer.
pub open spec fn answer_text(e: McpErrorView) -> Seq<char> {
    match e {
        McpErrorView::InvalidParams(s) => s,
        McpErrorView::Internal(s) => s,
        McpErrorView::ResourceNotFound { uri } => uri,
    }
}

/// The server takes the blame for what fails outside the call: a backend, the
/// registry file, input and output. All else is the fault of the call. Either way
/// the text of the error is told.
pub proof fn faults_are_told_apart(e: ErrorView)
    ensures
        answer_to(e) is Internal <==> e is Backend || e is ConfigRead || e is ConfigWrite || e is Io,
        answer_to(e) is InvalidParams <==> e is ProjectNotFound || e is ProjectAlreadyExists
            || e is InvalidProjectId || e is PathNotFound || e is NotADirectory
            || e is NoLanguageDetected || e is PositionOutOfRange || e is OverlappingEdits
            || e is InvertedEdit || e is OperationNotAvailable || e is InvalidTarget,
        answer_text(answer_to(e)) == error::error_message(e),
{
}

} // verus!
