//! Watching one file: how a watch comes to listen, and which changes it
//! reports to its subscriber.

use crate::error::{ErrorKind, FsError};
use vstd::prelude::*;

verus! {

/// What a modification touched.
#[derive(Debug, Clone, Copy, PartialEq, Eq, Structural)]
pub enum Modification {
    /// Not known more closely.
    Any,
    /// The content of the file.
    Data,
    /// Only what the system records about the file: times, permissions,
    /// ownership.
    Metadata,
    /// The name of the file.
    Name,
    /// Something else.
    Other,
}

/// How the system classifies a change that it reports for a watched path.
#[derive(Debug, Clone, Copy, PartialEq, Eq, Structural)]
pub enum Change {
    /// Not known more closely.
    Any,
    /// The file was opened, read, closed or executed.
    Access,
    /// The file came into being.
    Create,
    /// The file was modified.
    Modify(Modification),
    /// The file was removed.
    Remove,
    /// Something else.
    Other,
}

/// A change qualifies for a report when it modifies the file and is neither
/// a change of metadata alone nor a change of name.
pub open spec fn qualifies(change: Change) -> bool {
    change matches Change::Modify(what) && what != Modification::Metadata && what
        != Modification::Name
}

/// An event for the host: its name and the path that it carries.
#[derive(Debug, PartialEq, Eq)]
pub struct Notification {
    pub event: String,
    pub payload: String,
}

/// What a watch asks of the system.
#[derive(Debug, PartialEq, Eq)]
pub struct WatchRequest {
    /// The path to put the watcher on.
    pub path: String,
    /// Whether the watcher is to cover what lies below the path.
    pub recursive: bool,
}

/// The request for a watch on the one file at `path`: exactly that path,
/// and nothing below it.
pub fn watch_request(path: &str) -> (request: WatchRequest)
    ensures
        request.path@ == path@,
        !request.recursive,
{
    WatchRequest { path: String::from_str(path), recursive: false }
}

/// How far the system got in setting up a watch.
#[derive(Debug, PartialEq, Eq)]
pub enum WatchSetup {
    /// No watcher could be made; the system's reason.
    WatcherFailed(String),
    /// The watcher could not be put on the path; the system's reason.
    RegistrationFailed(String),
    /// The watcher is on the path and listens.
    Listening,
}

/// A watch that listens on one path.
#[derive(Debug, PartialEq, Eq)]
pub struct WatchRegistration {
    path: String,
}

impl WatchRegistration {
    /// The path that the watch reports, as the subscriber gave it.
    pub closed spec fn spec_path(&self) -> Seq<char> {
        self.path@
    }

    /// The path that the watch reports.
    pub fn path(&self) -> (path: &str)
        ensures
            path@ == self.spec_path(),
    {
        self.path.as_str()
    }

    /// Decides what the subscriber hears of one change: a `file-changed`
    /// event with the watched path for a change that qualifies, nothing for
    /// any other.
    pub fn on_event(&self, change: Change) -> (report: Option<Notification>)
        ensures
            qualifies(change) ==> (report matches Some(n) && n.event@ == "file-changed"@
                && n.payload@ == self.spec_path()),
            !qualifies(change) ==> report is None,
    {
        match change {
            Change::Modify(Modification::Metadata) | Change::Modify(Modification::Name) => None,
            Change::Modify(_) => Some(
                Notification {
                    event: String::from_str("file-changed"),
                    payload: self.path.clone(),
                },
            ),
            _ => None,
        }
    }
}

/// Registers a watch on `path` once the system has set it up. A watch that
/// listens reports `path` itself; a setup that failed at either step is a
/// setup failure that carries the system's reason.
pub fn watch_file(path: String, setup: &WatchSetup) -> (watch: Result<WatchRegistration, FsError>)
    ensures
        match *setup {
            WatchSetup::WatcherFailed(reason) => watch matches Err(e) && e.kind
                == ErrorKind::WatchSetupFailed && e.message@ == "Failed to create watcher: "@
                + reason@,
            WatchSetup::RegistrationFailed(reason) => watch matches Err(e) && e.kind
                == ErrorKind::WatchSetupFailed && e.message@ == "Failed to watch file: "@
                + reason@,
            WatchSetup::Listening => watch matches Ok(w) && w.spec_path() == path@,
        },
{
    match setup {
        WatchSetup::WatcherFailed(reason) => Err(
            FsError::with_detail(
                ErrorKind::WatchSetupFailed,
                "Failed to create watcher: ",
                reason.as_str(),
            ),
        ),
        WatchSetup::RegistrationFailed(reason) => Err(
            FsError::with_detail(
                ErrorKind::WatchSetupFailed,
                "Failed to watch file: ",
                reason.as_str(),
            ),
        ),
        WatchSetup::Listening => Ok(WatchRegistration { path }),
    }
}

} // verus!
