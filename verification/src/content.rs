//! What reading and writing a file's whole content come to: the content, or
//! one kind of failure with the system's reason in its message.

use crate::error::{ErrorKind, FsError};
use vstd::prelude::*;

verus! {

/// The result of reading a file as text, from what the system gave: the
/// text unchanged, or a read failure that carries the system's reason.
pub fn read_file(outcome: Result<String, String>) -> (content: Result<String, FsError>)
    ensures
        match outcome {
            Ok(text) => content matches Ok(read) && read@ == text@,
            Err(reason) => content matches Err(e) && e.kind == ErrorKind::ReadFailed && e.message@
                == "Failed to read file: "@ + reason@,
        },
{
    match outcome {
        Ok(text) => Ok(text),
        Err(reason) => Err(
            FsError::with_detail(ErrorKind::ReadFailed, "Failed to read file: ", reason.as_str()),
        ),
    }
}

/// The result of overwriting a file, from what the system gave: success, or
/// a write failure that carries the system's reason.
pub fn write_file(outcome: Result<(), String>) -> (done: Result<(), FsError>)
    ensures
        match outcome {
            Ok(_) => done is Ok,
            Err(reason) => done matches Err(e) && e.kind == ErrorKind::WriteFailed && e.message@
                == "Failed to write file: "@ + reason@,
        },
{
    match outcome {
        Ok(_) => Ok(()),
        Err(reason) => Err(
            FsError::with_detail(ErrorKind::WriteFailed, "Failed to write file: ", reason.as_str()),
        ),
    }
}

} // verus!
