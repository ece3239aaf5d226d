//! What the user asked for on the command line.

use vstd::prelude::*;
use crate::path::FsPath;

verus! {

/// The arguments of one run, as they were given.
#[derive(Debug)]
pub struct Cli {
    /// Files and directories to collect from.
    pub paths: Vec<FsPath>,
    /// File formats to include; empty to include every file.
    pub formats: Vec<String>,
    /// Files and directories to leave out.
    pub ignore_paths: Vec<FsPath>,
    /// Where the collected text goes.
    pub output: FsPath,
}

} // verus!
