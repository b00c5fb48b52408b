use crate::error::CodecError;
use crate::wav::{
    decode_wav_image, encode_wav_image, is_float, wav_contents, wav_encodable, wav_image, WavSpec,
};
use std::io::{Read, Write};
use vstd::prelude::*;

verus! {

/// zlib level of the zlib pipeline (flate2's default).
pub const ZLIB_LEVEL: u32 = 6;

/// zstd level of the zstd pipeline; 0 selects zstd's default.
pub const ZSTD_LEVEL: i32 = 0;

/// Brotli working-buffer size, quality and window (log2) of the brotli codec.
pub const BROTLI_BUFFER: usize = 4096;

pub const BROTLI_QUALITY: u32 = 11;

pub const BROTLI_WINDOW: u32 = 22;

/// The zlib stream that flate2 writes for `data` at `level`.
pub uninterp spec fn zlib_image(data: Seq<u8>, level: u32) -> Seq<u8>;

/// What flate2's zlib decoder reads out of `data`.
pub uninterp spec fn zlib_contents(data: Seq<u8>) -> Seq<u8>;

/// The zstd frame that the zstd crate writes for `data` at `level`.
pub uninterp spec fn zstd_image(data: Seq<u8>, level: i32) -> Seq<u8>;

/// What the zstd crate decodes out of `data`.
pub uninterp spec fn zstd_contents(data: Seq<u8>) -> Seq<u8>;

/// The brotli stream that the brotli crate writes for `data` with the given
/// buffer size, quality and window.
pub uninterp spec fn brotli_image(data: Seq<u8>, buffer: usize, quality: u32, window: u32) -> Seq<u8>;

/// What the brotli crate decodes out of `data`.
pub uninterp spec fn brotli_contents(data: Seq<u8>) -> Seq<u8>;

/// Relies on flate2's `ZlibEncoder` (`new`, `write_all`, `finish`) over a
/// `Vec`: the stream depends on the data and the level alone, and it does not
/// fail, since writing to a `Vec` never fails and miniz_oxide's deflate only
/// errors on bad parameters or a callback output.
#[verifier::external_body]
fn zlib_encode(data: &[u8], level: u32) -> (out: Option<Vec<u8>>)
    requires
        level <= 9,
    ensures
        out.is_some(),
        out matches Some(c) ==> c@ == zlib_image(data@, level),
{
    let mut encoder = flate2::write::ZlibEncoder::new(Vec::new(), flate2::Compression::new(level));
    encoder.write_all(data).ok()?;
    encoder.finish().ok()
}

/// Relies on flate2's `ZlibDecoder` (`new`, `read_to_end`).
#[verifier::external_body]
fn zlib_decode(data: &[u8]) -> (out: Option<Vec<u8>>)
    ensures
        out matches Some(d) ==> d@ == zlib_contents(data@),
{
    let mut decoded = Vec::new();
    flate2::read::ZlibDecoder::new(data).read_to_end(&mut decoded).ok()?;
    Some(decoded)
}

/// Relies on `zstd::stream::encode_all`.
#[verifier::external_body]
fn zstd_encode(data: &[u8], level: i32) -> (out: Option<Vec<u8>>)
    ensures
        out matches Some(c) ==> c@ == zstd_image(data@, level),
{
    zstd::stream::encode_all(data, level).ok()
}

/// Relies on `zstd::stream::decode_all`.
#[verifier::external_body]
fn zstd_decode(data: &[u8]) -> (out: Option<Vec<u8>>)
    ensures
        out matches Some(d) ==> d@ == zstd_contents(data@),
{
    zstd::stream::decode_all(data).ok()
}

/// Relies on brotli's `CompressorWriter` (`new`, `write_all`, `flush`; the
/// stream is finished when the writer is dropped). It does not fail: the
/// encoder refuses only metadata operations and input after the stream is
/// finished, quality and window are clamped into range, and writing to a `Vec`
/// never fails.
#[verifier::external_body]
fn brotli_encode(data: &[u8], buffer: usize, quality: u32, window: u32) -> (out: Option<Vec<u8>>)
    ensures
        out.is_some(),
        out matches Some(c) ==> c@ == brotli_image(data@, buffer, quality, window),
{
    let mut compressed = Vec::new();
    {
        let mut writer = brotli::CompressorWriter::new(&mut compressed, buffer, quality, window);
        writer.write_all(data).ok()?;
        writer.flush().ok()?;
    }
    Some(compressed)
}

/// Relies on brotli's `Decompressor` (`new`, `read_to_end`).
#[verifier::external_body]
fn brotli_decode(data: &[u8], buffer: usize) -> (out: Option<Vec<u8>>)
    ensures
        out matches Some(d) ==> d@ == brotli_contents(data@),
{
    let mut decoded = Vec::new();
    brotli::Decompressor::new(data, buffer).read_to_end(&mut decoded).ok()?;
    Some(decoded)
}

/// Compresses `data` with brotli at quality 11 and a 4 MiB window; it always
/// succeeds.
pub fn compress_brotli(data: &[u8]) -> (out: Result<Vec<u8>, CodecError>)
    ensures
        out matches Ok(c) && c@ == brotli_image(data@, BROTLI_BUFFER, BROTLI_QUALITY, BROTLI_WINDOW),
{
    match brotli_encode(data, BROTLI_BUFFER, BROTLI_QUALITY, BROTLI_WINDOW) {
        Some(c) => Ok(c),
        None => Err(CodecError::Compression),
    }
}

/// Decompresses a brotli stream.
pub fn decompress_brotli(data: &[u8]) -> (out: Result<Vec<u8>, CodecError>)
    ensures
        match out {
            Ok(d) => d@ == brotli_contents(data@),
            Err(e) => e == CodecError::Decompression,
        },
{
    match brotli_decode(data, BROTLI_BUFFER) {
        Some(d) => Ok(d),
        None => Err(CodecError::Decompression),
    }
}

/// The WAV image of `samples` in `spec`.
pub open spec fn image_of(samples: Seq<i16>, spec: WavSpec) -> Seq<u8> {
    wav_image(
        samples,
        spec.channels,
        spec.sample_rate,
        spec.bits_per_sample,
        is_float(spec.sample_format),
    )
}

/// What a WAV image decodes to, in the shape of `wav_contents`.
pub open spec fn decoded_as(samples: Seq<i16>, spec: WavSpec) -> (Seq<i16>, u16, u32, u16, bool) {
    (samples, spec.channels, spec.sample_rate, spec.bits_per_sample, is_float(spec.sample_format))
}

/// Writes `samples` as a WAV file in memory and compresses it with zlib.
/// Fails, with `WavEncoding`, exactly when no WAV file can hold them.
pub fn compress_zlib(samples: &[i16], spec: &WavSpec) -> (out: Result<Vec<u8>, CodecError>)
    ensures
        match out {
            Ok(c) => wav_encodable(samples@, *spec) && c@ == zlib_image(
                image_of(samples@, *spec),
                ZLIB_LEVEL,
            ),
            Err(e) => !wav_encodable(samples@, *spec) && e == CodecError::WavEncoding,
        },
{
    let image = match encode_wav_image(samples, spec) {
        Ok(b) => b,
        Err(e) => return Err(e),
    };
    match zlib_encode(image.as_slice(), ZLIB_LEVEL) {
        Some(c) => Ok(c),
        None => Err(CodecError::Compression),
    }
}

/// Inflates a zlib stream and reads the WAV file inside it.
pub fn decompress_zlib(buffer: &[u8]) -> (out: Result<(Vec<i16>, WavSpec), CodecError>)
    ensures
        match out {
            Ok((s, f)) => wav_contents(zlib_contents(buffer@)) == Some(decoded_as(s@, f)),
            Err(e) => e == CodecError::Decompression || (e == CodecError::WavDecoding
                && wav_contents(zlib_contents(buffer@)).is_none()),
        },
{
    let image = match zlib_decode(buffer) {
        Some(d) => d,
        None => return Err(CodecError::Decompression),
    };
    decode_wav_image(image.as_slice())
}

/// Writes `samples` as a WAV file in memory and compresses it with zstd.
/// Fails with `WavEncoding` exactly when no WAV file can hold them, and with
/// `Compression` where zstd reports an error (its C library does so when it
/// cannot allocate memory).
pub fn compress_zstd(samples: &[i16], spec: &WavSpec) -> (out: Result<Vec<u8>, CodecError>)
    ensures
        match out {
            Ok(c) => wav_encodable(samples@, *spec) && c@ == zstd_image(
                image_of(samples@, *spec),
                ZSTD_LEVEL,
            ),
            Err(e) => (e == CodecError::WavEncoding) == !wav_encodable(samples@, *spec) && (e
                == CodecError::WavEncoding || e == CodecError::Compression),
        },
{
    let image = match encode_wav_image(samples, spec) {
        Ok(b) => b,
        Err(e) => return Err(e),
    };
    match zstd_encode(image.as_slice(), ZSTD_LEVEL) {
        Some(c) => Ok(c),
        None => Err(CodecError::Compression),
    }
}

/// Decodes a zstd frame and reads the WAV file inside it.
pub fn decompress_zstd(buffer: &[u8]) -> (out: Result<(Vec<i16>, WavSpec), CodecError>)
    ensures
        match out {
            Ok((s, f)) => wav_contents(zstd_contents(buffer@)) == Some(decoded_as(s@, f)),
            Err(e) => e == CodecError::Decompression || (e == CodecError::WavDecoding
                && wav_contents(zstd_contents(buffer@)).is_none()),
        },
{
    let image = match zstd_decode(buffer) {
        Some(d) => d,
        None => return Err(CodecError::Decompression),
    };
    decode_wav_image(image.as_slice())
}

} // verus!
