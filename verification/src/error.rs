//! The ways a command can be refused.

use vstd::prelude::*;

verus! {

/// Why a command stopped.
#[derive(Debug)]
pub enum LinkError {
    /// No repository has been registered yet.
    NoRepository,
    /// The home directory of this user cannot be determined.
    HomeUnavailable,
    /// The working directory is needed to read a relative path, and cannot be had.
    WorkingDirUnavailable,
    /// The path to link does not exist.
    PathDoesNotExist { system_path: String },
    /// The repository already holds something under the chosen key.
    EntryExists { stored_key: String, system_path: String },
    /// No entry answers to what was given.
    EntryNotFound { input: String },
    /// The manifest sets no command to open the repository with.
    OpenCommandUnset,
    /// The repository location given does not exist.
    LocationDoesNotExist { location: String },
}

} // verus!
