//! What the command line asks for, as plain values.

use vstd::prelude::*;

verus! {

/// The arguments of one run.
#[derive(Clone, Debug)]
pub struct Args {
    /// Path of the directory to list.
    pub path: String,
}

} // verus!
