//! An in-place terminal renderer: an ordered collection of named line
//! buffers ("chunks") that is flattened and redrawn over the previously
//! written block using ANSI cursor-movement and erase sequences.
//!
//! The terminal stream is modelled as a character buffer owned by the
//! log; everything the log would send to the terminal is appended there,
//! so the exact emitted bytes are part of each operation's contract.

pub mod chunk;
pub mod dynamic_log;
pub mod errors;
pub mod laws;
pub mod text;

pub use chunk::LogChunk;
pub use dynamic_log::DynamicLog;
pub use errors::LogError;
