//! The run's invocation options, as plain data.

use vstd::prelude::*;

verus! {

/// What a run was asked to do: the files or directories to analyze, whether
/// to apply fixes in place, and whether to emit the machine-readable report.
pub struct Args {
    pub files: Vec<String>,
    pub fix: bool,
    pub json: bool,
}

} // verus!
