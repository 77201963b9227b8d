//! The error type of the library.

use vstd::prelude::*;

verus! {

/// std's I/O error, carried through the library unopened.
#[verifier::external_type_specification]
#[verifier::external_body]
pub struct ExIoError(std::io::Error);

/// Errors that can occur during `head` processing.
#[derive(Debug)]
pub enum HeadError {
    /// A numeric argument could not be parsed.
    InvalidCount { kind: String, reason: String },
    /// An I/O error occurred while reading a file.
    FileRead { path: String, source: std::io::Error },
    /// An I/O error occurred while writing output.
    Write(std::io::Error),
    /// A file could not be opened.
    FileOpen { path: String, source: std::io::Error },
}

impl HeadError {
    /// The text shown for this error; `io_text` is the text of the I/O
    /// error that the variant carries (unused by `InvalidCount`).
    pub open spec fn message_text(self, io_text: Seq<char>) -> Seq<char> {
        match self {
            HeadError::InvalidCount { kind, reason } => "invalid number of "@ + kind@ + ": "@
                + reason@,
            HeadError::FileRead { path, .. } => "error reading '"@ + path@ + "': "@ + io_text,
            HeadError::Write(_) => "write error: "@ + io_text,
            HeadError::FileOpen { path, .. } => "cannot open '"@ + path@ + "' for reading: "@
                + io_text,
        }
    }

    /// The message for this error, given the text of the I/O error it
    /// carries, if any.
    pub fn message(&self, io_text: &str) -> (r: String)
        ensures
            r@ == self.message_text(io_text@),
    {
        match self {
            HeadError::InvalidCount { kind, reason } => {
                let mut m = String::from_str("invalid number of ");
                m.append(kind.as_str());
                m.append(": ");
                m.append(reason.as_str());
                m
            },
            HeadError::FileRead { path, .. } => {
                let mut m = String::from_str("error reading '");
                m.append(path.as_str());
                m.append("': ");
                m.append(io_text);
                m
            },
            HeadError::Write(_) => {
                let mut m = String::from_str("write error: ");
                m.append(io_text);
                m
            },
            HeadError::FileOpen { path, .. } => {
                let mut m = String::from_str("cannot open '");
                m.append(path.as_str());
                m.append("' for reading: ");
                m.append(io_text);
                m
            },
        }
    }
}

} // verus!
