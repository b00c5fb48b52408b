//! Integer-stream codecs for PCM audio: a run-length byte codec, a linear
//! quantizer with a sub-word bit packer, and a piecewise-linear segment codec,
//! together with thin bridges to general-purpose compressors and to the WAV
//! container format.

pub mod batch;
pub mod bitpack;
pub mod compressors;
pub mod diff;
pub mod error;
pub mod piecewise;
pub mod pipeline;
pub mod positional;
pub mod quantize;
pub mod rle;
pub mod wav;

pub use batch::total_sizes;
pub use bitpack::{pack_10_bit_values, pack_codes, unpack_10_bit_values, unpack_codes};
pub use compressors::{
    compress_brotli, compress_zlib, compress_zstd, decompress_brotli, decompress_zlib,
    decompress_zstd,
};
pub use diff::{byte_differences, ByteDiff, ByteMismatch, ExtraBytes};
pub use error::CodecError;
pub use pipeline::{quantize_and_pack, unpack_and_restore, PackedSamples};
pub use piecewise::{compress_segments, decompress_segments, Level, Segment};
pub use quantize::{scale_down, scale_from_10_bits, scale_to_10_bits, scale_up};
pub use rle::{run_length_decode, run_length_encode};
pub use wav::{decode_wav_image, encode_wav_image, SampleFormat, WavSpec};
