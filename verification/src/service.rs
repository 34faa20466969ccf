//! Request and status records of the search service that sits above the
//! engine.
//!
//! The HTTP plumbing around these records is unverified and lives outside
//! the library; the records themselves are plain data that the service and
//! the engine exchange.

use vstd::prelude::*;

verus! {

/// A message the service loop reacts to: start a search, or poll one.
#[derive(Debug, Clone)]
pub enum InternalMessage {
    Search,
    Check,
}

/// Parameters of a star search request.
#[derive(Debug, Clone)]
pub struct StarRules {
    pub seed: u32,
    pub star: u8,
}

/// Parameters of a galaxy search request.
#[derive(Debug, Clone)]
pub struct GalaxyRules {
    pub seed: u32,
    pub star: u8,
    pub galaxy: u8,
}

/// Where a submitted search stands: finished with its matches, or still
/// running.
#[derive(Debug, Clone)]
pub enum SearchStatus {
    StarSearch(Vec<(u32, u8)>),
    GalaxySearch(Vec<u32>),
    Running,
}

impl SearchStatus {
    /// Whether the search behind this status is still in flight.
    pub fn is_running(&self) -> (r: bool)
        ensures
            r == (self is Running),
    {
        matches!(self, SearchStatus::Running)
    }
}

} // verus!
