//! What a decoder reports when it cannot go on.
use vstd::prelude::*;
use vstd::string::*;

use crate::text::{frame_one, frame_three, frame_two};

verus! {

/// The failures of this library. Every `String` in a variant is text for a
/// reader of logs: a cause, the name of a field, a value that was found.
#[derive(Debug, PartialEq, Eq)]
pub enum NotepadErrors {
    /// A failure passed on by a caller: its message, the function that passes
    /// it on, and a remark.
    Generic(String, String, String),
    /// The first two bytes are not `NP`; holds what was found instead.
    Signature(String),
    /// A field could not be read: the cause and the field.
    ReadError(String, String),
    /// A field of a given size could not be read: the cause, the field and
    /// the size.
    ReadErrorWithSize(String, String, String),
    /// A byte outside the set its field allows: what was expected, what was
    /// found, and the field.
    UnexpectedValue(String, String, String),
    /// The input ended where a new edit chunk would begin.
    EoF,
    /// There is no edit chunk to decode.
    NA,
    /// A file could not be opened: the cause and the path.
    FileOpen(String, String),
    /// The command line could not do its work: the cause and a remark.
    CLIError(String, String),
}

/// A [`NotepadErrors`] with its texts as sequences of characters.
pub enum ErrorView {
    Generic(Seq<char>, Seq<char>, Seq<char>),
    Signature(Seq<char>),
    ReadError(Seq<char>, Seq<char>),
    ReadErrorWithSize(Seq<char>, Seq<char>, Seq<char>),
    UnexpectedValue(Seq<char>, Seq<char>, Seq<char>),
    EoF,
    NA,
    FileOpen(Seq<char>, Seq<char>),
    CLIError(Seq<char>, Seq<char>),
}

impl View for NotepadErrors {
    type V = ErrorView;

    open spec fn view(&self) -> ErrorView {
        match self {
            NotepadErrors::Generic(a, b, c) => ErrorView::Generic(a@, b@, c@),
            NotepadErrors::Signature(a) => ErrorView::Signature(a@),
            NotepadErrors::ReadError(a, b) => ErrorView::ReadError(a@, b@),
            NotepadErrors::ReadErrorWithSize(a, b, c) => ErrorView::ReadErrorWithSize(a@, b@, c@),
            NotepadErrors::UnexpectedValue(a, b, c) => ErrorView::UnexpectedValue(a@, b@, c@),
            NotepadErrors::EoF => ErrorView::EoF,
            NotepadErrors::NA => ErrorView::NA,
            NotepadErrors::FileOpen(a, b) => ErrorView::FileOpen(a@, b@),
            NotepadErrors::CLIError(a, b) => ErrorView::CLIError(a@, b@),
        }
    }
}

impl ErrorView {
    /// The one-line message of a failure.
    pub open spec fn message(self) -> Seq<char> {
        match self {
            ErrorView::Generic(a, b, c) => "Encountered an error. Error: '"@ + a
                + "', Function: '"@ + b + "', Additinal: '"@ + c + "'"@,
            ErrorView::Signature(a) =>
                "File signature does't match the correct TabState file format. Expected 'NP', found '"@
                + a + "'"@,
            ErrorView::ReadError(a, b) => "Unable to read data. Error: '"@ + a + "', Field: '"@ + b
                + "'"@,
            ErrorView::ReadErrorWithSize(a, b, c) => "Unable to read data. Error: '"@ + a
                + "', Field: '"@ + b + "', Size: '"@ + c + "'"@,
            ErrorView::UnexpectedValue(a, b, c) => "Unexpected value found. Expected: '"@ + a
                + "', Found: '"@ + b + "', Field: '"@ + c + "'"@,
            ErrorView::EoF => "EoF Reached"@,
            ErrorView::NA => "No data to parse"@,
            ErrorView::FileOpen(a, b) => "Error while opening a file. ERROR: '"@ + a
                + "', PATH: '"@ + b + "'"@,
            ErrorView::CLIError(a, b) => "CLI error. ERROR: '"@ + a + "', MSG: '"@ + b + "'"@,
        }
    }
}

impl NotepadErrors {
    /// The one-line message of this failure.
    pub fn message(&self) -> (text: String)
        ensures
            text@ == self@.message(),
    {
        match self {
            NotepadErrors::Generic(a, b, c) => frame_three(
                "Encountered an error. Error: '",
                a.as_str(),
                "', Function: '",
                b.as_str(),
                "', Additinal: '",
                c.as_str(),
                "'",
            ),
            NotepadErrors::Signature(a) => frame_one(
                "File signature does't match the correct TabState file format. Expected 'NP', found '",
                a.as_str(),
                "'",
            ),
            NotepadErrors::ReadError(a, b) => frame_two(
                "Unable to read data. Error: '",
                a.as_str(),
                "', Field: '",
                b.as_str(),
                "'",
            ),
            NotepadErrors::ReadErrorWithSize(a, b, c) => frame_three(
                "Unable to read data. Error: '",
                a.as_str(),
                "', Field: '",
                b.as_str(),
                "', Size: '",
                c.as_str(),
                "'",
            ),
            NotepadErrors::UnexpectedValue(a, b, c) => frame_three(
                "Unexpected value found. Expected: '",
                a.as_str(),
                "', Found: '",
                b.as_str(),
                "', Field: '",
                c.as_str(),
                "'",
            ),
            NotepadErrors::EoF => String::from_str("EoF Reached"),
            NotepadErrors::NA => String::from_str("No data to parse"),
            NotepadErrors::FileOpen(a, b) => frame_two(
                "Error while opening a file. ERROR: '",
                a.as_str(),
                "', PATH: '",
                b.as_str(),
                "'",
            ),
            NotepadErrors::CLIError(a, b) => frame_two(
                "CLI error. ERROR: '",
                a.as_str(),
                "', MSG: '",
                b.as_str(),
                "'",
            ),
        }
    }
}

} // verus!
