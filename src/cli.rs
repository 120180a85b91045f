//! The commands of the command-line front end.
use vstd::prelude::*;

verus! {

/// A parsed command line.
#[derive(Debug)]
pub struct Cli {
    pub command: Commands,
}

/// What the user asked for.
#[derive(Debug)]
pub enum Commands {
    /// List the installed versions.
    List,
    /// List the versions that can be downloaded.
    ListRemote,
    /// Install a version, such as `1.21.5`.
    Install { version: String },
    /// Remove an installed version.
    Uninstall { version: String },
    /// Make an installed version the active one.
    Use { version: String },
    /// Show the active version.
    Current,
    /// Empty the download cache.
    Clean,
    /// Bring the system's Go installation into the registry.
    Import,
    /// Show the system's Go installation.
    System,
}

} // verus!
