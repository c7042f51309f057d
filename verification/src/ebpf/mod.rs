//! The optional kernel-level monitoring subsystem, as the rest of the program
//! sees it.

use vstd::prelude::*;

verus! {

/// Status of the eBPF subsystem, for the status indicator.
#[derive(Debug, Clone)]
pub enum EbpfStatus {
    /// Loaded, and its probe feeds the attribution cache.
    Active,
    /// Built in, but it could not be started, for the reason given.
    Unavailable(String),
    /// Not built in.
    NotCompiled,
}

} // verus!
