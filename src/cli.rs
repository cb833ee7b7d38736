//! The operator's choices.

use vstd::prelude::*;

verus! {

/// The identities to trace, and whether to expand them into all their
/// threads and descendant processes.
pub struct Arguments {
    pub pid: Vec<u32>,
    pub follow_threads: bool,
}

} // verus!
