//! The errors of the TypeScript and JavaScript backend.
use vstd::prelude::*;

use crate::lsp::error;
use crate::lsp::error::{LspError, LspErrorView};
use crate::text;
use crate::text::cat3;

verus! {

/// What can go wrong with the TypeScript and JavaScript backend.
#[derive(Debug)]
pub enum TsError {
    /// The server was not found; the text lists where it was looked for.
    ServerNotFound(String),
    /// The dialogue with the server failed.
    Lsp(LspError),
    /// Input or output failed; the text says how.
    Io(String),
}

/// What a [`TsError`] says.
pub enum TsErrorView {
    ServerNotFound(Seq<char>),
    Lsp(LspErrorView),
    Io(Seq<char>),
}

impl View for TsError {
    type V = TsErrorView;

    open spec fn view(&self) -> TsErrorView {
        match self {
            TsError::ServerNotFound(s) => TsErrorView::ServerNotFound(s@),
            TsError::Lsp(e) => TsErrorView::Lsp(e@),
            TsError::Io(s) => TsErrorView::Io(s@),
        }
    }
}

/// The text that describes an error.
pub open spec fn ts_error_message(e: TsErrorView) -> Seq<char> {
    match e {
        TsErrorView::ServerNotFound(looked) => "could not locate typescript-language-server (looked at: "@
            + looked
            + "); set HENKA_TYPESCRIPT_LANGUAGE_SERVER, put it on PATH, or run `cargo xtask typescript`"@,
        TsErrorView::Lsp(e) => error::lsp_error_message(e),
        TsErrorView::Io(s) => s,
    }
}

impl TsError {
    /// The text that describes the error.
    pub fn message(&self) -> (r: String)
        ensures
            r@ == ts_error_message(self@),
    {
        match self {
            TsError::ServerNotFound(looked) => cat3(
                "could not locate typescript-language-server (looked at: ",
                looked.as_str(),
                "); set HENKA_TYPESCRIPT_LANGUAGE_SERVER, put it on PATH, or run `cargo xtask typescript`",
            ),
            TsError::Lsp(e) => e.message(),
            TsError::Io(s) => s.clone(),
        }
    }
}

// ---------------------------------------------------------------------------
// Laws
// ---------------------------------------------------------------------------

/// The text of an error says where the server was looked for. An error of the dialogue
/// says what it says.
pub proof fn messages_say_what_went_wrong(e: TsErrorView)
    ensures
        match e {
            TsErrorView::ServerNotFound(looked) => text::contains_text(ts_error_message(e), looked),
            TsErrorView::Lsp(inner) => ts_error_message(e) == error::lsp_error_message(inner),
            TsErrorView::Io(s) => ts_error_message(e) == s,
        },
{
    if let TsErrorView::ServerNotFound(looked) = e {
        text::lemma_stands_between(
            "could not locate typescript-language-server (looked at: "@,
            looked,
            "); set HENKA_TYPESCRIPT_LANGUAGE_SERVER, put it on PATH, or run `cargo xtask typescript`"@,
        );
    }
}

} // verus!
