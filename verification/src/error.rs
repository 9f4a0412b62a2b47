//! The ways in which a scan configuration is refused.

use vstd::prelude::*;

verus! {

/// A fault in the configuration, found before any scanning starts.
#[derive(Clone, Copy, Debug, PartialEq, Eq, Structural)]
pub enum ConfigurationError {
    /// The two ends of the range belong to different address families.
    InvalidRange,
    /// The scan was given no worker.
    ZeroWorkers,
}

} // verus!
