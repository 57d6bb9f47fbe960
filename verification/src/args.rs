//! A reduced argument set kept for callers that do not use the verbose flag.

use vstd::prelude::*;

verus! {

/// Input and output locations plus the cache and quiet switches.
#[derive(Debug)]
pub struct Args {
    pub input: String,
    pub output: String,
    pub force: bool,
    pub quiet: bool,
}

} // verus!
