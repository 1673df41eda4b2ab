//! The ways an operation on the log can refuse to act.  Each names a
//! precondition the caller broke; the operation reports it and leaves
//! the log unchanged, so the caller must not proceed as if it had
//! succeeded.

use vstd::prelude::*;

verus! {

/// A broken precondition, reported instead of acting.
#[derive(Clone, Copy, Debug, PartialEq, Eq, Structural)]
pub enum LogError {
    /// A line operation was asked of a log that has no chunk.
    NoChunk,
    /// A chunk or line index was out of range.
    IndexOutOfRange,
    /// No chunk carries the requested label.
    ChunkNotFound,
}

} // verus!
