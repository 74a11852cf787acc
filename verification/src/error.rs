//! The failures that the operations report: a kind to branch on and a
//! message for the reader.

use vstd::prelude::*;

verus! {

/// The conditions under which an operation fails.
#[derive(Debug, Clone, Copy, PartialEq, Eq, Structural)]
pub enum ErrorKind {
    /// The root of a tree request is missing or is not a directory.
    InvalidRoot,
    /// The root directory exists but could not be listed.
    ListingFailed,
    /// A file's content could not be read as text.
    ReadFailed,
    /// A file's content could not be written.
    WriteFailed,
    /// A watch could not be set up.
    WatchSetupFailed,
}

/// A failed operation.
#[derive(Debug, PartialEq, Eq)]
pub struct FsError {
    pub kind: ErrorKind,
    pub message: String,
}

impl FsError {
    /// A failure of the given kind with the given message.
    pub fn new(kind: ErrorKind, message: &str) -> (e: FsError)
        ensures
            e.kind == kind,
            e.message@ == message@,
    {
        FsError { kind, message: String::from_str(message) }
    }

    /// A failure of the given kind whose message is `summary` followed by
    /// `detail`.
    pub fn with_detail(kind: ErrorKind, summary: &str, detail: &str) -> (e: FsError)
        ensures
            e.kind == kind,
            e.message@ == summary@ + detail@,
    {
        let mut message = String::from_str(summary);
        message.append(detail);
        FsError { kind, message }
    }
}

} // verus!
