//! The failures the library reports.

use vstd::prelude::*;

verus! {

/// A typed failure, returned to the immediate caller; no operation
/// substitutes a default on a miss.
#[derive(Debug)]
pub enum Error {
    /// The name is absent from a backing source that cannot create entries.
    NotFound { path: String },
    /// The resolved tensor's shape disagrees with the declared shape.
    ShapeMismatch { path: String, expected: Vec<usize>, got: Vec<usize> },
    /// The extent along the sharding dimension is not divisible by the
    /// number of parts.
    ShapeMismatchSplit { shape: Vec<usize>, dim: usize, n_parts: usize },
    /// The operation is not available on this backing source, dimension,
    /// element type or size.
    UnsupportedOperation { reason: String },
    /// The operation mixes incompatible device placements.
    DeviceMismatch,
    /// An underlying file or codec failure, carried through.
    Io { reason: String },
}

} // verus!
