//! The note record and the error types of the parser and the scanner,
//! together with their mathematical views.

use vstd::prelude::*;

verus! {

/// A single parsed document. A note is immutable once constructed: a new
/// document revision produces a new value.
#[derive(Debug)]
pub struct Note {
    /// The trimmed value of the document's `name` header; empty if absent.
    pub title: String,
    /// Publication time in seconds since the Unix epoch; the epoch-zero
    /// sentinel if the `date` header is absent.
    pub date: i64,
    /// The HTML rendering of the document body; never the raw source.
    pub content: String,
}

/// The mathematical value of a `Note`.
pub struct NoteView {
    pub title: Seq<char>,
    pub date: i64,
    pub content: Seq<char>,
}

impl View for Note {
    type V = NoteView;

    open spec fn view(&self) -> NoteView {
        NoteView { title: self.title@, date: self.date, content: self.content@ }
    }
}

/// Why a single document failed to parse.
#[derive(Debug)]
pub enum ParseError {
    /// No blank line separates the header from the body.
    MissingSeparator,
    /// A header line (carried along) has no colon.
    MalformedHeaderLine(String),
    /// A header key (carried along) is neither `name` nor `date`.
    UnknownHeaderKey(String),
    /// A `date` header value (carried along) does not parse under the
    /// note date format. An authoring mistake here fails the whole scan
    /// loudly rather than silently reordering content.
    InvalidDate(String),
}

/// The mathematical value of a `ParseError`.
pub enum ParseErrorView {
    MissingSeparator,
    MalformedHeaderLine(Seq<char>),
    UnknownHeaderKey(Seq<char>),
    InvalidDate(Seq<char>),
}

impl View for ParseError {
    type V = ParseErrorView;

    open spec fn view(&self) -> ParseErrorView {
        match self {
            ParseError::MissingSeparator => ParseErrorView::MissingSeparator,
            ParseError::MalformedHeaderLine(l) => ParseErrorView::MalformedHeaderLine(l@),
            ParseError::UnknownHeaderKey(k) => ParseErrorView::UnknownHeaderKey(k@),
            ParseError::InvalidDate(v) => ParseErrorView::InvalidDate(v@),
        }
    }
}

/// Why a whole directory scan failed. A scan is all-or-nothing: one bad
/// note aborts it, so a half-broken directory is never published.
#[derive(Debug)]
pub enum ScanError {
    /// The directory itself could not be listed.
    DirectoryUnreadable,
    /// One note could not be read or parsed.
    NoteFailed { path: String, cause: ParseError },
}

/// The mathematical value of a `ScanError`.
pub enum ScanErrorView {
    DirectoryUnreadable,
    NoteFailed { path: Seq<char>, cause: ParseErrorView },
}

impl View for ScanError {
    type V = ScanErrorView;

    open spec fn view(&self) -> ScanErrorView {
        match self {
            ScanError::DirectoryUnreadable => ScanErrorView::DirectoryUnreadable,
            ScanError::NoteFailed { path, cause } => ScanErrorView::NoteFailed {
                path: path@,
                cause: cause@,
            },
        }
    }
}

} // verus!
