//! Markdown document trees, raw content results and change notifications
//! for a desktop markdown browser, with every rule stated as a contract.

pub mod content;
pub mod entry;
pub mod error;
pub mod names;
pub mod order;
pub mod paths;
pub mod shape;
pub mod startup;
pub mod tree;
pub mod watch;

pub use content::{read_file, write_file};
pub use entry::{FileNode, ListFailure, RootScan, Scanned, ScannedKind};
pub use error::{ErrorKind, FsError};
pub use tree::{build_tree, get_file_tree};
pub use watch::{
    watch_file, watch_request, Change, Modification, Notification, WatchRegistration,
    WatchRequest, WatchSetup,
};
