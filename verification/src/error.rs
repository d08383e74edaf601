//! What can go wrong while a font is read or written.

use crate::number::IntErrorKind;
use vstd::prelude::*;

verus! {

/// `std::io::Error`, the error of an I/O operation.
#[verifier::external_type_specification]
#[verifier::external_body]
pub struct ExIoError(std::io::Error);

/// Errors for `Reader` and `Writer`.
#[derive(Debug)]
pub enum Error {
    /// A downstream IO error. The library does no I/O of its own and never
    /// makes this error; it is here for the code that feeds it.
    IO(std::io::Error),
    /// A field that should be an integer is none.
    Parse {
        /// Why the field is no integer of its type.
        error: IntErrorKind,
        /// The number of the line that holds the field, counted from 1.
        line_number: usize,
        /// The line that holds the field.
        line: String,
    },
    /// `STARTFONT` is missing the format version.
    MissingVersion {
        /// The number of the line, counted from 1.
        line_number: usize,
        /// The line.
        line: String,
    },
    /// There was no bounding box for a character.
    MissingBoundingBox {
        /// The number of the line, counted from 1.
        line_number: usize,
        /// The line.
        line: String,
    },
    /// An entry is missing a value.
    MissingValue {
        /// The keyword of the entry.
        property_name: String,
        /// The number of the line, counted from 1.
        line_number: usize,
    },
    /// `ENCODING` holds a number that is no Unicode scalar value.
    InvalidCodepoint {
        /// The number of the line, counted from 1.
        line_number: usize,
        /// The line.
        line: String,
    },
    /// Eof has been reached.
    End,
    /// The font declaration is malformed.
    MalformedFont,
    /// The property declarations are malformed.
    MalformedProperties,
    /// The character declaration is malformed.
    MalformedChar,
}

/// What an `Error` holds: the same errors, with strings as sequences of
/// characters. Of an I/O error it holds only that it is one.
pub enum ErrorView {
    /// An I/O error.
    IO,
    /// A field that should be an integer is none.
    Parse { error: IntErrorKind, line_number: nat, line: Seq<char> },
    /// `STARTFONT` without a version.
    MissingVersion { line_number: nat, line: Seq<char> },
    /// A bitmap without a bounding box.
    MissingBoundingBox { line_number: nat, line: Seq<char> },
    /// A keyword without its value.
    MissingValue { property_name: Seq<char>, line_number: nat },
    /// A codepoint that is no Unicode scalar value.
    InvalidCodepoint { line_number: nat, line: Seq<char> },
    /// The end of the input.
    End,
    /// A record that may not stand in the font where it stands.
    MalformedFont,
    /// A record that may not stand among the properties.
    MalformedProperties,
    /// A record that may not stand in a character.
    MalformedChar,
}

impl View for Error {
    type V = ErrorView;

    open spec fn view(&self) -> ErrorView {
        match self {
            Error::IO(_) => ErrorView::IO,
            Error::Parse { error, line_number, line } => ErrorView::Parse {
                error: *error,
                line_number: *line_number as nat,
                line: line@,
            },
            Error::MissingVersion { line_number, line } => ErrorView::MissingVersion {
                line_number: *line_number as nat,
                line: line@,
            },
            Error::MissingBoundingBox { line_number, line } => ErrorView::MissingBoundingBox {
                line_number: *line_number as nat,
                line: line@,
            },
            Error::MissingValue { property_name, line_number } => ErrorView::MissingValue {
                property_name: property_name@,
                line_number: *line_number as nat,
            },
            Error::InvalidCodepoint { line_number, line } => ErrorView::InvalidCodepoint {
                line_number: *line_number as nat,
                line: line@,
            },
            Error::End => ErrorView::End,
            Error::MalformedFont => ErrorView::MalformedFont,
            Error::MalformedProperties => ErrorView::MalformedProperties,
            Error::MalformedChar => ErrorView::MalformedChar,
        }
    }
}

} // verus!
