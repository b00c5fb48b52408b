use vstd::prelude::*;

verus! {

/// The ways a codec call can fail.
#[derive(Debug, Clone, Copy, PartialEq, Eq, Structural)]
pub enum CodecError {
    /// A run-length token stream of odd length: its last count has no value.
    MalformedStream,
    /// A bit width outside `1..=16`.
    InvalidWidth,
    /// Samples and format that do not make a WAV file.
    WavEncoding,
    /// Bytes that are not a WAV file of 16-bit-readable samples.
    WavDecoding,
    /// A general-purpose compressor failed.
    Compression,
    /// Bytes that a general-purpose decompressor refused.
    Decompression,
}

} // verus!
