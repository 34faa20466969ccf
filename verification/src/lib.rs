//! Chunked dispatch and readback engine for brute-force predicate search on a
//! compute device.
//!
//! The library partitions a large item domain into chunks that respect the
//! device's maximum bindable buffer size, sizes a workgroup dispatch grid for
//! each chunk, builds the per-chunk uniform parameters and copy commands, and
//! decodes the raw bytes read back from the device into the list of item
//! indices that satisfied the predicate.

pub mod decoder;
pub mod dispatch;
pub mod encoding;
pub mod errors;
pub mod kernel;
pub mod predicate;
pub mod planner;
pub mod search;
pub mod service;
pub mod session;

pub use encoding::OutputEncoding;
pub use errors::SearchError;
pub use planner::{ChunkDescriptor, DispatchDims};
