//! The command-line options, as plain values.
//!
//! Argument parsing itself happens outside the library; these fields are
//! what the analysis consumes.

use vstd::prelude::*;

verus! {

/// The options of one invocation.
#[derive(Debug)]
pub struct Cli {
    /// The target directory to analyze for dependencies.
    pub target_directory: String,
    /// The files that were changed and need testing.
    pub updated_files: Vec<String>,
    /// Verbosity level (0 = error up to 4 and higher = trace).
    pub verbosity_level: usize,
    /// Quiet mode: suppress all logging.
    pub quiet: bool,
    /// When set, write a DOT graph of the traversed edges to this path.
    pub dot_graph: Option<String>,
}

} // verus!
