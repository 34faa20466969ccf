//! Error taxonomy of the search engine.
//!
//! Every failure is fatal for the in-flight search: nothing retries, and no
//! partial result is ever returned.

use vstd::prelude::*;

verus! {

/// A typed, fatal failure of one search run.
#[derive(Clone, Copy, Debug, PartialEq, Eq, Structural)]
pub enum SearchError {
    /// No adapter exposes a compute-capable queue.
    NoCompatibleDevice,
    /// The requested configuration can never work: a zero-width or malformed
    /// encoding, a per-item stride larger than the maximum bindable buffer
    /// size, a dispatch bound of zero, or a domain so large that the chunk
    /// math would overflow the uniform parameter block.
    ConfigurationError,
    /// The device refused to create a buffer or pipeline object.
    AllocationError,
    /// Mapping the staging buffer for host reads failed, or the device was
    /// lost mid-run.
    ReadbackError,
}

impl SearchError {
    /// A short human-readable description of the failure.
    pub fn message(&self) -> (r: &'static str)
        ensures
            r@ == self.spec_message(),
    {
        match self {
            SearchError::NoCompatibleDevice => "no adapter exposes a compute-capable queue",
            SearchError::ConfigurationError => "the search configuration can never fit the device limits",
            SearchError::AllocationError => "the device refused to create a buffer or pipeline",
            SearchError::ReadbackError => "mapping the staging buffer for host reads failed",
        }
    }

    /// What `message` returns, variant by variant.
    pub open spec fn spec_message(self) -> Seq<char> {
        match self {
            SearchError::NoCompatibleDevice => "no adapter exposes a compute-capable queue"@,
            SearchError::ConfigurationError => "the search configuration can never fit the device limits"@,
            SearchError::AllocationError => "the device refused to create a buffer or pipeline"@,
            SearchError::ReadbackError => "mapping the staging buffer for host reads failed"@,
        }
    }
}

} // verus!
