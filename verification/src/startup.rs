//! What the host opens on launch: the folder that the first argument names.

use crate::watch::Notification;
use vstd::prelude::*;

verus! {

/// What the arguments of a launch ask to open.
#[derive(Debug, PartialEq, Eq)]
pub enum StartupTarget {
    /// No path was given.
    Nothing,
    /// The directory in which the process runs.
    CurrentDirectory,
    /// This path, to be made absolute.
    Path(String),
}

/// Reads the launch arguments, of which the first is the program: the
/// argument after it names the folder, a single dot the current directory.
pub fn startup_target(args: &Vec<String>) -> (target: StartupTarget)
    ensures
        args.len() <= 1 ==> target == StartupTarget::Nothing,
        args.len() > 1 && args[1]@ == seq!['.'] ==> target == StartupTarget::CurrentDirectory,
        args.len() > 1 && args[1]@ != seq!['.'] ==> (target matches StartupTarget::Path(p) && p@
            == args[1]@),
{
    if args.len() > 1 {
        let arg = &args[1];
        let dot = String::from_str(".");
        proof {
            reveal_strlit(".");
            assert("."@ =~= seq!['.']);
        }
        if *arg == dot {
            StartupTarget::CurrentDirectory
        } else {
            StartupTarget::Path(arg.clone())
        }
    } else {
        StartupTarget::Nothing
    }
}

/// The event that tells the host which folder to open: `open-folder` with
/// the resolved path, or nothing where the path could not be resolved.
pub fn open_folder(resolved: Option<String>) -> (report: Option<Notification>)
    ensures
        match resolved {
            Some(path) => report matches Some(n) && n.event@ == "open-folder"@ && n.payload@
                == path@,
            None => report is None,
        },
{
    match resolved {
        Some(path) => Some(Notification { event: String::from_str("open-folder"), payload: path }),
        None => None,
    }
}

} // verus!
