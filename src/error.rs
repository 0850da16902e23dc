//! The ways in which finding a program for a file can fail.
use vstd::prelude::*;

use crate::mime::{MimeType, MimeView};

verus! {

/// Why no program could be chosen for a file, or it could not be started.
#[derive(Debug, Clone, PartialEq, Eq)]
pub enum Error {
    /// The home directory of the user is not known.
    NoHomeDirectory,
    /// No configuration file stands at the path given.
    ConfigNotFound(String),
    /// The configuration file at `path` could not be opened.
    ConfigOpenError { path: String, reason: String },
    /// The line with this number (counted from 1) could not be read.
    LineReadError(usize),
    /// The line with this number is not a rule; the text is the line as read.
    InvalidLine(usize, String),
    /// The key of a `mime` rule is not a MIME type pattern.
    InvalidMimeType(String),
    /// The MIME type of the file could not be found out.
    DetectionFailed(String),
    /// No rule applies to a file of this type and extension.
    NoProgramFound { mime: MimeType, extension: Option<String> },
    /// The program could not be started.
    OpenFailed { program: String, reason: String },
}

/// The mathematical value of an [`Error`].
pub enum ErrorView {
    NoHomeDirectory,
    ConfigNotFound(Seq<char>),
    ConfigOpenError { path: Seq<char>, reason: Seq<char> },
    LineReadError(int),
    InvalidLine(int, Seq<char>),
    InvalidMimeType(Seq<char>),
    DetectionFailed(Seq<char>),
    NoProgramFound { mime: MimeView, extension: Option<Seq<char>> },
    OpenFailed { program: Seq<char>, reason: Seq<char> },
}

/// The view of an optional text.
pub open spec fn opt_view(o: Option<String>) -> Option<Seq<char>> {
    match o {
        Some(s) => Some(s@),
        None => None,
    }
}

impl View for Error {
    type V = ErrorView;

    open spec fn view(&self) -> ErrorView {
        match self {
            Error::NoHomeDirectory => ErrorView::NoHomeDirectory,
            Error::ConfigNotFound(p) => ErrorView::ConfigNotFound(p@),
            Error::ConfigOpenError { path, reason } => ErrorView::ConfigOpenError {
                path: path@,
                reason: reason@,
            },
            Error::LineReadError(n) => ErrorView::LineReadError(*n as int),
            Error::InvalidLine(n, t) => ErrorView::InvalidLine(*n as int, t@),
            Error::InvalidMimeType(k) => ErrorView::InvalidMimeType(k@),
            Error::DetectionFailed(m) => ErrorView::DetectionFailed(m@),
            Error::NoProgramFound { mime, extension } => ErrorView::NoProgramFound {
                mime: mime@,
                extension: opt_view(*extension),
            },
            Error::OpenFailed { program, reason } => ErrorView::OpenFailed {
                program: program@,
                reason: reason@,
            },
        }
    }
}

} // verus!
