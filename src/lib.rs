//! Adaptive decoder for LZ4-compressed MessagePack block envelopes.
//!
//! The library splits an envelope into header/payload blocks, estimates the
//! uncompressed size from each header, searches an ordered list of LZ4
//! decompression strategies, decodes the recovered MessagePack document into
//! a JSON-like tree, and degrades to partial recovery, text, or a byte
//! profile when the payload is not a whole document.
use vstd::prelude::*;

pub mod decompress;
pub mod envelope;
pub mod format;
pub mod input;
pub mod models;
pub mod msgpack;
pub mod processor;
pub mod profile;
pub mod recovery;
pub mod size_hint;
pub mod text;
pub mod value;

verus! {

/// Stateless entry point that groups the pipeline's operations.
pub struct LZ4MessagePackProcessor;

} // verus!
