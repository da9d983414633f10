//! The errors of the core.
use vstd::prelude::*;

use crate::path::PathBuf;
use crate::text;
use crate::text::{cat2, cat3, decimal_text};

verus! {

/// What can go wrong in the core. Failures that come from outside the library
/// (reading a file, parsing the registry) carry the text that describes them.
#[derive(Debug)]
pub enum Error {
    /// No project is registered under the id.
    ProjectNotFound(String),
    /// A project is registered under the id already.
    ProjectAlreadyExists(String),
    /// The id is not a slug.
    InvalidProjectId(String),
    /// The root does not exist.
    PathNotFound(PathBuf),
    /// The root is not a directory.
    NotADirectory(PathBuf),
    /// No supported language was found under the root.
    NoLanguageDetected(PathBuf),
    /// The registry file could not be parsed.
    ConfigRead {
        /// Path of the registry file.
        path: PathBuf,
        /// What the parser said.
        source: String,
    },
    /// The registry file could not be written out as text.
    ConfigWrite(String),
    /// A position of an edit lies outside its file.
    PositionOutOfRange {
        /// File that the position refers to.
        path: PathBuf,
        /// Zero-based line.
        line: u32,
        /// Zero-based offset in the line.
        character: u32,
    },
    /// Two edits to one file overlap.
    OverlappingEdits(PathBuf),
    /// An edit to a file ends before it starts.
    InvertedEdit(PathBuf),
    /// The operation is not available for the project.
    OperationNotAvailable(String),
    /// The target has another shape than the operation expects.
    InvalidTarget(String),
    /// A language backend failed.
    Backend(String),
    /// Input or output failed.
    Io(String),
}

/// What an [`Error`] says.
pub enum ErrorView {
    ProjectNotFound(Seq<char>),
    ProjectAlreadyExists(Seq<char>),
    InvalidProjectId(Seq<char>),
    PathNotFound(Seq<char>),
    NotADirectory(Seq<char>),
    NoLanguageDetected(Seq<char>),
    ConfigRead { path: Seq<char>, source: Seq<char> },
    ConfigWrite(Seq<char>),
    PositionOutOfRange { path: Seq<char>, line: u32, character: u32 },
    OverlappingEdits(Seq<char>),
    InvertedEdit(Seq<char>),
    OperationNotAvailable(Seq<char>),
    InvalidTarget(Seq<char>),
    Backend(Seq<char>),
    Io(Seq<char>),
}

impl View for Error {
    type V = ErrorView;

    open spec fn view(&self) -> ErrorView {
        match self {
            Error::ProjectNotFound(id) => ErrorView::ProjectNotFound(id@),
            Error::ProjectAlreadyExists(id) => ErrorView::ProjectAlreadyExists(id@),
            Error::InvalidProjectId(id) => ErrorView::InvalidProjectId(id@),
            Error::PathNotFound(path) => ErrorView::PathNotFound(path@),
            Error::NotADirectory(path) => ErrorView::NotADirectory(path@),
            Error::NoLanguageDetected(path) => ErrorView::NoLanguageDetected(path@),
            Error::ConfigRead { path, source } => ErrorView::ConfigRead {
                path: path@,
                source: source@,
            },
            Error::ConfigWrite(source) => ErrorView::ConfigWrite(source@),
            Error::PositionOutOfRange { path, line, character } => ErrorView::PositionOutOfRange {
                path: path@,
                line: *line,
                character: *character,
            },
            Error::OverlappingEdits(path) => ErrorView::OverlappingEdits(path@),
            Error::InvertedEdit(path) => ErrorView::InvertedEdit(path@),
            Error::OperationNotAvailable(id) => ErrorView::OperationNotAvailable(id@),
            Error::InvalidTarget(message) => ErrorView::InvalidTarget(message@),
            Error::Backend(message) => ErrorView::Backend(message@),
            Error::Io(message) => ErrorView::Io(message@),
        }
    }
}

/// The text that describes an error.
pub open spec fn error_message(e: ErrorView) -> Seq<char> {
    match e {
        ErrorView::ProjectNotFound(id) => "project not found: `"@ + id + "`"@,
        ErrorView::ProjectAlreadyExists(id) => "project already registered: `"@ + id + "`"@,
        ErrorView::InvalidProjectId(id) => "invalid project id `"@ + id
            + "`: use lowercase letters, digits and dashes (e.g. `my-service`)"@,
        ErrorView::PathNotFound(path) => "path does not exist: "@ + path,
        ErrorView::NotADirectory(path) => "path is not a directory: "@ + path,
        ErrorView::NoLanguageDetected(path) => "no supported language detected under "@ + path,
        ErrorView::ConfigRead { path, source } => "could not read registry config at "@ + path + ": "@
            + source,
        ErrorView::ConfigWrite(source) => "could not serialize registry config: "@ + source,
        ErrorView::PositionOutOfRange { path, line, character } => "position "@ + text::decimal(
            line as nat,
        ) + ":"@ + text::decimal(character as nat) + " is out of range in "@ + path,
        ErrorView::OverlappingEdits(path) => "overlapping edits in "@ + path,
        ErrorView::InvertedEdit(path) => "an edit ends before it starts in "@ + path,
        ErrorView::OperationNotAvailable(id) => "operation `"@ + id
            + "` is not available for this project"@,
        ErrorView::InvalidTarget(message) => message,
        ErrorView::Backend(message) => "language backend error: "@ + message,
        ErrorView::Io(message) => message,
    }
}

impl Error {
    /// The text that describes the error.
    pub fn message(&self) -> (r: String)
        ensures
            r@ == error_message(self@),
    {
        match self {
            Error::ProjectNotFound(id) => cat3("project not found: `", id.as_str(), "`"),
            Error::ProjectAlreadyExists(id) => cat3(
                "project already registered: `",
                id.as_str(),
                "`",
            ),
            Error::InvalidProjectId(id) => cat3(
                "invalid project id `",
                id.as_str(),
                "`: use lowercase letters, digits and dashes (e.g. `my-service`)",
            ),
            Error::PathNotFound(path) => cat2("path does not exist: ", path.as_str()),
            Error::NotADirectory(path) => cat2("path is not a directory: ", path.as_str()),
            Error::NoLanguageDetected(path) => cat2(
                "no supported language detected under ",
                path.as_str(),
            ),
            Error::ConfigRead { path, source } => {
                let head = cat2("could not read registry config at ", path.as_str());
                cat3(head.as_str(), ": ", source.as_str())
            },
            Error::ConfigWrite(source) => cat2(
                "could not serialize registry config: ",
                source.as_str(),
            ),
            Error::PositionOutOfRange { path, line, character } => {
                let row = decimal_text(*line as u64);
                let column = decimal_text(*character as u64);
                let head = cat3("position ", row.as_str(), ":");
                cat2(
                    cat3(head.as_str(), column.as_str(), " is out of range in ").as_str(),
                    path.as_str(),
                )
            },
            Error::OverlappingEdits(path) => cat2("overlapping edits in ", path.as_str()),
            Error::InvertedEdit(path) => cat2(
                "an edit ends before it starts in ",
                path.as_str(),
            ),
            Error::OperationNotAvailable(id) => cat3(
                "operation `",
                id.as_str(),
                "` is not available for this project",
            ),
            Error::InvalidTarget(message) => message.clone(),
            Error::Backend(message) => cat2("language backend error: ", message.as_str()),
            Error::Io(message) => message.clone(),
        }
    }
}

// ---------------------------------------------------------------------------
// Laws
// ---------------------------------------------------------------------------

/// What an error is about: the project, the file, the operation, or what went wrong
/// outside.
pub open spec fn subject_of(e: ErrorView) -> Seq<char> {
    match e {
        ErrorView::ProjectNotFound(id) => id,
        ErrorView::ProjectAlreadyExists(id) => id,
        ErrorView::InvalidProjectId(id) => id,
        ErrorView::PathNotFound(path) => path,
        ErrorView::NotADirectory(path) => path,
        ErrorView::NoLanguageDetected(path) => path,
        ErrorView::ConfigRead { path, .. } => path,
        ErrorView::ConfigWrite(source) => source,
        ErrorView::PositionOutOfRange { path, .. } => path,
        ErrorView::OverlappingEdits(path) => path,
        ErrorView::InvertedEdit(path) => path,
        ErrorView::OperationNotAvailable(id) => id,
        ErrorView::InvalidTarget(message) => message,
        ErrorView::Backend(message) => message,
        ErrorView::Io(message) => message,
    }
}

/// The text of an error says what the error is about. That of an error about a
/// position says the line and then the character, and that of a registry file that
/// cannot be parsed says why.
pub proof fn messages_say_what_they_are_about(e: ErrorView)
    ensures
        text::contains_text(error_message(e), subject_of(e)),
        e matches ErrorView::PositionOutOfRange { line, character, .. } ==> text::contains_text(
            error_message(e),
            text::decimal(line as nat) + ":"@ + text::decimal(character as nat),
        ),
        e matches ErrorView::ConfigRead { source, .. } ==> text::contains_text(
            error_message(e),
            source,
        ),
{
    let all = error_message(e);
    let none = Seq::<char>::empty();
    match e {
        ErrorView::ProjectNotFound(id) => {
            text::lemma_stands_between("project not found: `"@, id, "`"@);
        },
        ErrorView::ProjectAlreadyExists(id) => {
            text::lemma_stands_between("project already registered: `"@, id, "`"@);
        },
        ErrorView::InvalidProjectId(id) => {
            text::lemma_stands_between(
                "invalid project id `"@,
                id,
                "`: use lowercase letters, digits and dashes (e.g. `my-service`)"@,
            );
        },
        ErrorView::ConfigRead { path, source } => {
            let front = "could not read registry config at "@;
            text::lemma_stands_between(front, path, ": "@ + source);
            assert(all =~= front + path + (": "@ + source));
            text::lemma_stands_between(front + path + ": "@, source, none);
            assert(all =~= (front + path + ": "@) + source + none);
        },
        ErrorView::PositionOutOfRange { path, line, character } => {
            let place = text::decimal(line as nat) + ":"@ + text::decimal(character as nat);
            let middle = " is out of range in "@;
            text::lemma_stands_between("position "@, place, middle + path);
            assert(all =~= "position "@ + place + (middle + path));
            text::lemma_stands_between("position "@ + place + middle, path, none);
            assert(all =~= ("position "@ + place + middle) + path + none);
        },
        ErrorView::OperationNotAvailable(id) => {
            text::lemma_stands_between(
                "operation `"@,
                id,
                "` is not available for this project"@,
            );
        },
        _ => {
            let part = subject_of(e);
            let front = all.take(all.len() - part.len());
            assert(all =~= front + part + none);
            text::lemma_stands_between(front, part, none);
        },
    }
}

} // verus!
