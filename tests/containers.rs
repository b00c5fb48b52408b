use audio_codecs::{
    compress_brotli, compress_zlib, compress_zstd, decode_wav_image, decompress_brotli,
    decompress_zlib, decompress_zstd, encode_wav_image, CodecError, SampleFormat, WavSpec,
};
use std::io::Write;

fn mono16() -> WavSpec {
    WavSpec { channels: 1, sample_rate: 8000, bits_per_sample: 16, sample_format: SampleFormat::Int }
}

fn tone(n: usize) -> Vec<i16> {
    (0..n).map(|i| ((i % 50) as i16 - 25) * 1000).collect()
}

#[test]
fn wav_image_round_trips() {
    let samples = tone(100);
    let image = encode_wav_image(&samples, &mono16()).unwrap();
    assert_eq!(&image[..4], b"RIFF");
    assert_eq!(&image[8..12], b"WAVE");
    assert_eq!(image.len(), 44 + 2 * samples.len());
    assert_eq!(decode_wav_image(&image), Ok((samples, mono16())));
}

#[test]
fn unwritable_wav_formats_are_rejected() {
    let samples = tone(10);
    let mut spec = mono16();
    spec.channels = 0;
    assert_eq!(encode_wav_image(&samples, &spec), Err(CodecError::WavEncoding));
    let mut spec = mono16();
    spec.bits_per_sample = 12;
    assert_eq!(encode_wav_image(&samples, &spec), Err(CodecError::WavEncoding));
    let mut spec = mono16();
    spec.sample_rate = 0;
    assert_eq!(encode_wav_image(&samples, &spec), Err(CodecError::WavEncoding));
    let mut spec = mono16();
    spec.channels = 3;
    assert_eq!(encode_wav_image(&samples, &spec), Err(CodecError::WavEncoding));
    let mut spec = mono16();
    spec.sample_format = SampleFormat::Float;
    assert_eq!(encode_wav_image(&samples, &spec), Err(CodecError::WavEncoding));
    let mut spec = mono16();
    spec.sample_rate = u32::MAX;
    assert_eq!(encode_wav_image(&samples, &spec), Err(CodecError::WavEncoding));
    let mut spec = mono16();
    spec.bits_per_sample = 8;
    assert_eq!(encode_wav_image(&[200], &spec), Err(CodecError::WavEncoding));
    assert!(encode_wav_image(&[100, -128], &spec).is_ok());
}

#[test]
fn float_images_are_not_read_as_integers() {
    let spec = WavSpec {
        channels: 2,
        sample_rate: 44100,
        bits_per_sample: 32,
        sample_format: SampleFormat::Float,
    };
    let image = encode_wav_image(&[1, 2], &spec).unwrap();
    assert_eq!(decode_wav_image(&image), Err(CodecError::WavDecoding));
}

#[test]
fn eight_bit_images_round_trip() {
    let spec = WavSpec { channels: 2, sample_rate: 100, bits_per_sample: 8, sample_format: SampleFormat::Int };
    let samples = vec![-128i16, 127, 0, 5];
    let image = encode_wav_image(&samples, &spec).unwrap();
    assert_eq!(image.len(), 44 + samples.len());
    assert_eq!(decode_wav_image(&image), Ok((samples, spec)));
}

#[test]
fn garbage_is_not_a_wav_image() {
    assert_eq!(decode_wav_image(b"not a wav file"), Err(CodecError::WavDecoding));
}

#[test]
fn zlib_pipeline_round_trips() {
    let samples = tone(2000);
    let compressed = compress_zlib(&samples, &mono16()).unwrap();
    let image = encode_wav_image(&samples, &mono16()).unwrap();
    assert_ne!(compressed, image);
    assert!(compressed.len() < image.len());
    assert_eq!(decompress_zlib(&compressed), Ok((samples, mono16())));
}

#[test]
fn zstd_pipeline_round_trips() {
    let samples = tone(2000);
    let compressed = compress_zstd(&samples, &mono16()).unwrap();
    let image = encode_wav_image(&samples, &mono16()).unwrap();
    assert!(compressed.len() < image.len());
    assert_eq!(decompress_zstd(&compressed), Ok((samples, mono16())));
}

#[test]
fn pipelines_report_wav_errors() {
    let mut spec = mono16();
    spec.channels = 0;
    assert_eq!(compress_zlib(&tone(4), &spec), Err(CodecError::WavEncoding));
    assert_eq!(compress_zstd(&tone(4), &spec), Err(CodecError::WavEncoding));
}

#[test]
fn undecodable_streams_are_rejected() {
    assert_eq!(decompress_zlib(b"plain bytes"), Err(CodecError::Decompression));
    assert_eq!(decompress_zstd(b"plain bytes"), Err(CodecError::Decompression));
}

#[test]
fn compressed_non_wav_is_a_wav_error() {
    let mut encoder = flate2::write::ZlibEncoder::new(Vec::new(), flate2::Compression::default());
    encoder.write_all(b"hello, not a wav").unwrap();
    let stream = encoder.finish().unwrap();
    assert_eq!(decompress_zlib(&stream), Err(CodecError::WavDecoding));
    let frame = zstd::stream::encode_all(&b"hello, not a wav"[..], 0).unwrap();
    assert_eq!(decompress_zstd(&frame), Err(CodecError::WavDecoding));
}

#[test]
fn brotli_round_trips() {
    let data: Vec<u8> = (0..5000u32).map(|i| (i % 7) as u8).collect();
    let compressed = compress_brotli(&data).unwrap();
    assert_ne!(compressed, data);
    assert!(compressed.len() < data.len());
    assert_eq!(decompress_brotli(&compressed), Ok(data));
    assert_eq!(decompress_brotli(&compress_brotli(&[]).unwrap()), Ok(Vec::new()));
}
