//! The errors of the Java backend.
use vstd::prelude::*;

use crate::lsp::error;
use crate::lsp::error::{LspError, LspErrorView};
use crate::path::PathBuf;
use crate::text;
use crate::text::{cat2, cat3, cat4};

verus! {

/// What can go wrong with the Java backend.
#[derive(Debug)]
pub enum JavaError {
    /// No distribution of the server was found; the text lists where it was
    /// looked for.
    JdtlsNotFound(String),
    /// A distribution lacks something.
    JdtlsIncomplete(PathBuf, String),
    /// No Java runtime was found.
    JavaNotFound,
    /// An edit of the server operates on files; the text is the kind of the
    /// operation.
    UnsupportedFileOperation(String),
    /// The dialogue with the server failed.
    Lsp(LspError),
    /// Input or output failed; the text says how.
    Io(String),
}

/// What a [`JavaError`] says.
pub enum JavaErrorView {
    JdtlsNotFound(Seq<char>),
    JdtlsIncomplete(Seq<char>, Seq<char>),
    JavaNotFound,
    UnsupportedFileOperation(Seq<char>),
    Lsp(LspErrorView),
    Io(Seq<char>),
}

impl View for JavaError {
    type V = JavaErrorView;

    open spec fn view(&self) -> JavaErrorView {
        match self {
            JavaError::JdtlsNotFound(s) => JavaErrorView::JdtlsNotFound(s@),
            JavaError::JdtlsIncomplete(p, s) => JavaErrorView::JdtlsIncomplete(p@, s@),
            JavaError::JavaNotFound => JavaErrorView::JavaNotFound,
            JavaError::UnsupportedFileOperation(s) => JavaErrorView::UnsupportedFileOperation(s@),
            JavaError::Lsp(e) => JavaErrorView::Lsp(e@),
            JavaError::Io(s) => JavaErrorView::Io(s@),
        }
    }
}

/// The text that describes an error.
pub open spec fn java_error_message(e: JavaErrorView) -> Seq<char> {
    match e {
        JavaErrorView::JdtlsNotFound(looked) => "could not locate a jdtls distribution (looked at: "@
            + looked + "); set JDTLS_HOME or run scripts/fetch-jdtls.sh"@,
        JavaErrorView::JdtlsIncomplete(home, what) => "jdtls install at "@ + home
            + " is incomplete: "@ + what,
        JavaErrorView::JavaNotFound => "no Java runtime found; set JAVA_HOME or put `java` on PATH"@,
        JavaErrorView::UnsupportedFileOperation(kind) => "unsupported file operation: "@ + kind,
        JavaErrorView::Lsp(e) => error::lsp_error_message(e),
        JavaErrorView::Io(s) => s,
    }
}

impl JavaError {
    /// The text that describes the error.
    pub fn message(&self) -> (r: String)
        ensures
            r@ == java_error_message(self@),
    {
        match self {
            JavaError::JdtlsNotFound(looked) => cat3(
                "could not locate a jdtls distribution (looked at: ",
                looked.as_str(),
                "); set JDTLS_HOME or run scripts/fetch-jdtls.sh",
            ),
            JavaError::JdtlsIncomplete(home, what) => cat4(
                "jdtls install at ",
                home.as_str(),
                " is incomplete: ",
                what.as_str(),
            ),
            JavaError::JavaNotFound => {
                "no Java runtime found; set JAVA_HOME or put `java` on PATH".to_owned()
            },
            JavaError::UnsupportedFileOperation(kind) => cat2("unsupported file operation: ", kind.as_str()),
            JavaError::Lsp(e) => e.message(),
            JavaError::Io(s) => s.clone(),
        }
    }
}

// ---------------------------------------------------------------------------
// Laws
// ---------------------------------------------------------------------------

/// The text of an error says what the error is about: where the server was looked for,
/// which distribution lacks what, or which operation on a file was asked for. An error
/// of the dialogue says what it says.
pub proof fn messages_say_what_went_wrong(e: JavaErrorView)
    ensures
        match e {
            JavaErrorView::JdtlsNotFound(looked) => text::contains_text(
                java_error_message(e),
                looked,
            ),
            JavaErrorView::JdtlsIncomplete(home, what) => text::contains_text(
                java_error_message(e),
                home,
            ) && text::contains_text(java_error_message(e), what),
            JavaErrorView::JavaNotFound => true,
            JavaErrorView::UnsupportedFileOperation(kind) => text::contains_text(
                java_error_message(e),
                kind,
            ),
            JavaErrorView::Lsp(inner) => java_error_message(e) == error::lsp_error_message(inner),
            JavaErrorView::Io(s) => java_error_message(e) == s,
        },
{
    let all = java_error_message(e);
    let none = Seq::<char>::empty();
    match e {
        JavaErrorView::JdtlsNotFound(looked) => text::lemma_stands_between(
            "could not locate a jdtls distribution (looked at: "@,
            looked,
            "); set JDTLS_HOME or run scripts/fetch-jdtls.sh"@,
        ),
        JavaErrorView::JdtlsIncomplete(home, what) => {
            let front = "jdtls install at "@;
            let middle = " is incomplete: "@;
            assert(all =~= front + home + (middle + what));
            text::lemma_stands_between(front, home, middle + what);
            assert(all =~= (front + home + middle) + what + none);
            text::lemma_stands_between(front + home + middle, what, none);
        },
        JavaErrorView::UnsupportedFileOperation(kind) => {
            let front = "unsupported file operation: "@;
            assert(all =~= front + kind + none);
            text::lemma_stands_between(front, kind, none);
        },
        _ => {},
    }
}

} // verus!
