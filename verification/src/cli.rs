//! The control tool's command surface, as plain data: which command was
//! asked for and with which arguments. Parsing the process's argument list
//! into these values is left to the shell around the library.

use vstd::prelude::*;

verus! {

/// A request to watch a directory.
pub struct CLIWatch {
    /// The directory to add to the watch list.
    pub dir: String,
    /// How often to automatically take a snapshot of the directory.
    pub frequency: String,
    /// Files above this size are not snapshotted; absent means unbounded.
    pub max_file_size: Option<String>,
}

/// A request to list the snapshots of a directory.
pub struct CLILog {
    /// The directory whose snapshots to list.
    pub dir: String,
}

/// A request to show the differences between two snapshots.
pub struct CLIDiff {
    /// The directory to diff.
    pub dir: String,
    /// An initial snapshot reference to diff.
    pub snapshot_hash_one: String,
    /// A second snapshot reference; absent means the parent of the first.
    pub snapshot_hash_two: Option<String>,
}

/// A request to restore a snapshot.
pub struct CLIRestore {
    /// The snapshotted directory.
    pub dir: String,
    /// The snapshot reference to restore.
    pub hash: String,
    /// Restore here instead of the snapshot's origin directory, if given.
    pub to: Option<String>,
    /// Overwrite files that already exist at the destination.
    pub force: bool,
}

/// One command of the control tool.
pub enum Command {
    /// Adds a directory to the watch list.
    Watch(CLIWatch),
    /// Lists all watched directories.
    List,
    /// Lists all snapshots of a directory.
    Log(CLILog),
    /// Shows the differences between two snapshots.
    Diff(CLIDiff),
    /// Restores a snapshot.
    Restore(CLIRestore),
    /// Removes the configuration file outright, unwatching everything for
    /// future processes.
    ClearConf,
}

/// The control tool's parsed arguments.
pub struct Args {
    pub cmd: Command,
}

} // verus!
