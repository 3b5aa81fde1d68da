//! The command line of the viewer.

use vstd::prelude::*;
use std::path::PathBuf;

verus! {

#[verifier::external_type_specification]
#[verifier::external_body]
pub struct ExPathBuf(PathBuf);

/// What the command line asks for.
#[derive(Debug)]
pub struct Cli {
    /// Read the diff from standard input.
    pub stdin: bool,
    /// Read the diff from this file.
    pub diff_file: Option<PathBuf>,
    /// Arguments handed on to `git diff`.
    pub git_args: Vec<String>,
}

} // verus!
