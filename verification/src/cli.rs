//! The command-line arguments the process accepts.

use vstd::prelude::*;

verus! {

/// The arguments of one run: the review subject, the preferred port, and
/// the output form.
pub struct Args {
    /// The review subject: a commit, a file path, or `"diff"`.
    pub input: String,
    /// The preferred port of the local server; 0 picks any free port.
    pub port: u16,
    /// Whether to print the finished review in machine-readable form.
    pub json: bool,
}

} // verus!
