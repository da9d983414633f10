//! The errors of the Rust backend.
use vstd::prelude::*;

use crate::lsp::error;
use crate::lsp::error::{LspError, LspErrorView};
use crate::text;
use crate::text::cat3;

verus! {

/// What can go wrong with the Rust backend.
#[derive(Debug)]
pub enum RustError {
    /// The server was not found; the text lists where it was looked for.
    RustAnalyzerNotFound(String),
    /// The dialogue with the server failed.
    Lsp(LspError),
    /// Input or output failed; the text says how.
    Io(String),
}

/// What a [`RustError`] says.
pub enum RustErrorView {
    RustAnalyzerNotFound(Seq<char>),
    Lsp(LspErrorView),
    Io(Seq<char>),
}

impl View for RustError {
    type V = RustErrorView;

    open spec fn view(&self) -> RustErrorView {
        match self {
            RustError::RustAnalyzerNotFound(s) => RustErrorView::RustAnalyzerNotFound(s@),
            RustError::Lsp(e) => RustErrorView::Lsp(e@),
            RustError::Io(s) => RustErrorView::Io(s@),
        }
    }
}

/// The text that describes an error.
pub open spec fn rust_error_message(e: RustErrorView) -> Seq<char> {
    match e {
        RustErrorView::RustAnalyzerNotFound(looked) => "could not locate rust-analyzer (looked at: "@
            + looked
            + "); set HENKA_RUST_ANALYZER, put it on PATH, or run `cargo xtask rust-analyzer`"@,
        RustErrorView::Lsp(e) => error::lsp_error_message(e),
        RustErrorView::Io(s) => s,
    }
}

impl RustError {
    /// The text that describes the error.
    pub fn message(&self) -> (r: String)
        ensures
            r@ == rust_error_message(self@),
    {
        match self {
            RustError::RustAnalyzerNotFound(looked) => cat3(
                "could not locate rust-analyzer (looked at: ",
                looked.as_str(),
                "); set HENKA_RUST_ANALYZER, put it on PATH, or run `cargo xtask rust-analyzer`",
            ),
            RustError::Lsp(e) => e.message(),
            RustError::Io(s) => s.clone(),
        }
    }
}

// ---------------------------------------------------------------------------
// Laws
// ---------------------------------------------------------------------------

/// The text of an error says where the server was looked for. An error of the dialogue
/// says what it says.
pub proof fn messages_say_what_went_wrong(e: RustErrorView)
    ensures
        match e {
            RustErrorView::RustAnalyzerNotFound(looked) => text::contains_text(rust_error_message(e), looked),
            RustErrorView::Lsp(inner) => rust_error_message(e) == error::lsp_error_message(inner),
            RustErrorView::Io(s) => rust_error_message(e) == s,
        },
{
    if let RustErrorView::RustAnalyzerNotFound(looked) = e {
        text::lemma_stands_between(
            "could not locate rust-analyzer (looked at: "@,
            looked,
            "); set HENKA_RUST_ANALYZER, put it on PATH, or run `cargo xtask rust-analyzer`"@,
        );
    }
}

} // verus!
