//! Structural metadata for H.264/AVC and H.265/HEVC elementary streams.
//!
//! The crate provides a bit-granular reader and writer implementing the
//! Exponential-Golomb integer codes used throughout H.264/H.265 syntax,
//! a splitter for Annex-B start-code-delimited byte streams, a NAL unit
//! header classifier, a sequence-parameter-set (SPS) summary extractor,
//! and byte-exact writers for AVC and HEVC decoder configuration records.
//!
//! All parsing and serialization works over in-memory byte buffers; the
//! host environment is responsible for moving those buffers to and from
//! files or sockets.
use vstd::prelude::*;

pub mod avc;
pub mod bits;
pub mod extended_configuration_data;
pub mod hvc;
pub mod io;
pub mod nal;

verus! {

/// Failures reported by parsers and writers in this crate.
#[derive(Clone, Copy, Debug, PartialEq, Eq, Structural)]
pub enum Error {
    /// The input bytes do not follow the expected syntax, or the stream
    /// ended before a field was complete.
    InvalidInput,
    /// The in-memory record is missing data that the requested
    /// serialization needs (the input bytes themselves may be fine).
    Unsupported,
}

} // verus!
