//! The failure kinds shared by the parser and the generator.
//!
//! Every failure carries the data a precise message needs, most often the
//! 1-based number of the source line it was found on. No kind is ever
//! retried: each one ends the call that produced it.

use vstd::prelude::*;

verus! {

/// Spec-level image of an [`ErrorKind`].
pub enum ErrView {
    /// A recognized tag, or any unrecognized tag, appeared a second time.
    DuplicateHeader { line: int, tag: Seq<char> },
    /// Mandatory header fields were never set; lists every missing one.
    MissingEssential { fields: Seq<Seq<char>> },
    /// A value did not parse in the named field.
    ValueError { line: int, field: Seq<char> },
    /// A line had the numeric shape of a note under an unknown type symbol.
    UnknownNoteType { line: int },
    /// A line matched no rule of the grammar at all.
    ParserFailure { line: int },
    /// The body ended without the `E` terminator.
    MissingEndIndicator,
    /// The line uses a feature the parser does not support.
    NotImplemented { line: int, feature: Seq<char> },
    /// A media reference could not be rendered as text for the named tag.
    InvalidPathEncoding { tag: Seq<char> },
}

/// The enumerated failure kinds of both parsing and generating.
#[derive(Debug, Clone)]
pub enum ErrorKind {
    /// A recognized tag, or any unrecognized tag, appeared a second time;
    /// carries the line number and the tag name (`UNKNOWN` for a repeated
    /// unrecognized tag).
    DuplicateHeader(usize, String),
    /// Mandatory header fields were never set; lists every missing one.
    MissingEssential(Vec<String>),
    /// A value did not parse; carries the line number and the field name.
    ValueError(usize, String),
    /// A note-shaped line under an unknown type symbol; carries the line number.
    UnknownNoteType(usize),
    /// A line matched no rule of the grammar; carries the line number.
    ParserFailure(usize),
    /// The body ended without the `E` terminator.
    MissingEndIndicator,
    /// An unsupported feature; carries the line number and the feature name.
    NotImplemented(usize, String),
    /// A media reference could not be rendered as text; carries the tag name.
    InvalidPathEncoding(String),
}

impl View for ErrorKind {
    type V = ErrView;

    open spec fn view(&self) -> ErrView {
        match self {
            ErrorKind::DuplicateHeader(line, tag) => ErrView::DuplicateHeader {
                line: *line as int,
                tag: tag@,
            },
            ErrorKind::MissingEssential(fields) => ErrView::MissingEssential {
                fields: fields.deep_view(),
            },
            ErrorKind::ValueError(line, field) => ErrView::ValueError {
                line: *line as int,
                field: field@,
            },
            ErrorKind::UnknownNoteType(line) => ErrView::UnknownNoteType { line: *line as int },
            ErrorKind::ParserFailure(line) => ErrView::ParserFailure { line: *line as int },
            ErrorKind::MissingEndIndicator => ErrView::MissingEndIndicator,
            ErrorKind::NotImplemented(line, feature) => ErrView::NotImplemented {
                line: *line as int,
                feature: feature@,
            },
            ErrorKind::InvalidPathEncoding(tag) => ErrView::InvalidPathEncoding { tag: tag@ },
        }
    }
}

} // verus!
