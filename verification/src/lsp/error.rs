//! The errors of talking to a language server.
use vstd::prelude::*;

use crate::text;
use crate::text::{cat2, cat4, signed_decimal_text};

verus! {

/// What can go wrong with a language server.
#[derive(Debug)]
pub enum LspError {
    /// The server could not be started.
    Spawn(String),
    /// A message is framed wrongly.
    Protocol(String),
    /// The server answered with an error.
    Response {
        /// Code of the error.
        code: i64,
        /// Message of the error.
        message: String,
    },
    /// The connection closed before an answer came.
    Closed,
    /// Input or output failed; the text says how.
    Io(String),
    /// A value could not be written or read; the text says how.
    Json(String),
}

/// What an [`LspError`] says.
pub enum LspErrorView {
    Spawn(Seq<char>),
    Protocol(Seq<char>),
    Response { code: i64, message: Seq<char> },
    Closed,
    Io(Seq<char>),
    Json(Seq<char>),
}

impl View for LspError {
    type V = LspErrorView;

    open spec fn view(&self) -> LspErrorView {
        match self {
            LspError::Spawn(s) => LspErrorView::Spawn(s@),
            LspError::Protocol(s) => LspErrorView::Protocol(s@),
            LspError::Response { code, message } => LspErrorView::Response {
                code: *code,
                message: message@,
            },
            LspError::Closed => LspErrorView::Closed,
            LspError::Io(s) => LspErrorView::Io(s@),
            LspError::Json(s) => LspErrorView::Json(s@),
        }
    }
}

/// The text that describes an error.
pub open spec fn lsp_error_message(e: LspErrorView) -> Seq<char> {
    match e {
        LspErrorView::Spawn(s) => "failed to start language server: "@ + s,
        LspErrorView::Protocol(s) => "protocol error: "@ + s,
        LspErrorView::Response { code, message } => "language server error "@
            + text::signed_decimal(code as int) + ": "@ + message,
        LspErrorView::Closed => "language server connection closed"@,
        LspErrorView::Io(s) => s,
        LspErrorView::Json(s) => s,
    }
}

impl LspError {
    /// The text that describes the error.
    pub fn message(&self) -> (r: String)
        ensures
            r@ == lsp_error_message(self@),
    {
        match self {
            LspError::Spawn(s) => cat2("failed to start language server: ", s.as_str()),
            LspError::Protocol(s) => cat2("protocol error: ", s.as_str()),
            LspError::Response { code, message } => cat4(
                "language server error ",
                signed_decimal_text(*code).as_str(),
                ": ",
                message.as_str(),
            ),
            LspError::Closed => "language server connection closed".to_owned(),
            LspError::Io(s) => s.clone(),
            LspError::Json(s) => s.clone(),
        }
    }

    /// The error of a message whose header gives no length.
    pub fn no_length() -> (r: LspError)
        ensures
            r@ == LspErrorView::Protocol("message had no Content-Length header"@),
    {
        LspError::Protocol("message had no Content-Length header".to_owned())
    }
}

// ---------------------------------------------------------------------------
// Laws
// ---------------------------------------------------------------------------

/// The text of an error says what went wrong. That of an answer with an error says the
/// code and the message of the server.
pub proof fn messages_say_what_went_wrong(e: LspErrorView)
    ensures
        match e {
            LspErrorView::Spawn(s) => text::contains_text(lsp_error_message(e), s),
            LspErrorView::Protocol(s) => text::contains_text(lsp_error_message(e), s),
            LspErrorView::Response { code, message } => text::contains_text(
                lsp_error_message(e),
                text::signed_decimal(code as int),
            ) && text::contains_text(lsp_error_message(e), message),
            LspErrorView::Closed => true,
            LspErrorView::Io(s) => lsp_error_message(e) == s,
            LspErrorView::Json(s) => lsp_error_message(e) == s,
        },
{
    let all = lsp_error_message(e);
    let none = Seq::<char>::empty();
    match e {
        LspErrorView::Spawn(s) => {
            let front = "failed to start language server: "@;
            assert(all =~= front + s + none);
            text::lemma_stands_between(front, s, none);
        },
        LspErrorView::Protocol(s) => {
            let front = "protocol error: "@;
            assert(all =~= front + s + none);
            text::lemma_stands_between(front, s, none);
        },
        LspErrorView::Response { code, message } => {
            let front = "language server error "@;
            let number = text::signed_decimal(code as int);
            assert(all =~= front + number + (": "@ + message));
            text::lemma_stands_between(front, number, ": "@ + message);
            assert(all =~= (front + number + ": "@) + message + none);
            text::lemma_stands_between(front + number + ": "@, message, none);
        },
        _ => {},
    }
}

} // verus!
