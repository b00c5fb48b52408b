use crate::error::CodecError;
use vstd::prelude::*;

verus! {

/// Whether a WAV file stores its samples as integers or as IEEE floats.
#[derive(Clone, Copy, Debug, PartialEq, Eq, Structural)]
pub enum SampleFormat {
    Float,
    Int,
}

/// The format fields of a WAV file.
#[derive(Clone, Copy, Debug, PartialEq, Eq, Structural)]
pub struct WavSpec {
    pub channels: u16,
    pub sample_rate: u32,
    pub bits_per_sample: u16,
    pub sample_format: SampleFormat,
}

/// Most samples a WAV image may hold: the writer counts data bytes in a `u32`.
pub const MAX_WAV_SAMPLES: usize = 0x3FFF_FF00;

pub open spec fn is_float(f: SampleFormat) -> bool {
    f == SampleFormat::Float
}

/// The bytes of the WAV file, as hound writes it, that holds `samples` with
/// the given format fields.
pub uninterp spec fn wav_image(
    samples: Seq<i16>,
    channels: u16,
    sample_rate: u32,
    bits_per_sample: u16,
    float: bool,
) -> Seq<u8>;

/// What hound reads out of `bytes` as 16-bit samples: the samples and the
/// format fields (channels, rate, bits, float), or `None` where it refuses.
pub uninterp spec fn wav_contents(bytes: Seq<u8>) -> Option<(Seq<i16>, u16, u32, u16, bool)>;

/// The bytes of a sample at `bits` bits per sample.
pub open spec fn sample_bytes(bits: u16) -> int {
    (bits as int + 7) / 8
}

/// Format fields that hound's writer supports (float samples only at 32 bits)
/// and computes its header from without overflow.
pub open spec fn header_supported(spec: WavSpec) -> bool {
    &&& (spec.bits_per_sample == 8 || spec.bits_per_sample == 16 || spec.bits_per_sample == 24
        || spec.bits_per_sample == 32)
    &&& is_float(spec.sample_format) ==> spec.bits_per_sample == 32
    &&& spec.channels >= 1
    &&& spec.sample_rate >= 1
    &&& spec.sample_rate * sample_bytes(spec.bits_per_sample) * spec.channels <= u32::MAX
}

/// Samples and format that make a WAV image: a supported header, whole frames
/// (one sample per channel), a length the writer can count, and at 8 bits
/// only samples that fit in a signed byte.
pub open spec fn wav_encodable(samples: Seq<i16>, spec: WavSpec) -> bool {
    &&& header_supported(spec)
    &&& samples.len() <= MAX_WAV_SAMPLES
    &&& samples.len() % (spec.channels as nat) == 0
    &&& spec.bits_per_sample == 8 ==> forall|i: int|
        0 <= i < samples.len() ==> -128 <= #[trigger] samples[i] <= 127
}

/// Relies on hound's `WavWriter` (`new`, `write_sample`, `finalize`) writing
/// into memory: the bytes depend on the samples and format alone; it fails on
/// an 8-bit sample outside `i8` (`TooWide`) and on a partial last frame
/// (`UnfinishedSample`), and writing to a `Vec` never fails. Its header code
/// divides by the sample rate and the channel count, multiplies them in a
/// `u32`, and panics on float samples below 32 bits: `requires` keeps those
/// out, and the length bound keeps its `u32` byte counter from overflowing.
#[verifier::external_body]
fn write_wav(samples: &[i16], spec: WavSpec) -> (image: Option<Vec<u8>>)
    requires
        header_supported(spec),
        samples@.len() <= MAX_WAV_SAMPLES,
    ensures
        image.is_some() == wav_encodable(samples@, spec),
        image matches Some(b) ==> b@ == wav_image(
            samples@,
            spec.channels,
            spec.sample_rate,
            spec.bits_per_sample,
            is_float(spec.sample_format),
        ),
{
    let sample_format = match spec.sample_format {
        SampleFormat::Float => hound::SampleFormat::Float,
        SampleFormat::Int => hound::SampleFormat::Int,
    };
    let (channels, sample_rate, bits_per_sample) = (spec.channels, spec.sample_rate, spec.bits_per_sample);
    let h = hound::WavSpec { channels, sample_rate, bits_per_sample, sample_format };
    let mut cursor = std::io::Cursor::new(Vec::new());
    let mut writer = hound::WavWriter::new(&mut cursor, h).ok()?;
    for &s in samples {
        writer.write_sample(s).ok()?;
    }
    writer.finalize().ok()?;
    Some(cursor.into_inner())
}

/// Relies on hound's `WavReader` (`new`, `spec`, `samples::<i16>`) reading
/// from memory; the outcome depends on the bytes alone.
#[verifier::external_body]
fn read_wav(bytes: &[u8]) -> (contents: Option<(Vec<i16>, WavSpec)>)
    ensures
        contents.is_some() == wav_contents(bytes@).is_some(),
        contents matches Some((s, f)) ==> wav_contents(bytes@) == Some(
            (s@, f.channels, f.sample_rate, f.bits_per_sample, is_float(f.sample_format)),
        ),
{
    let mut reader = hound::WavReader::new(bytes).ok()?;
    let h = reader.spec();
    let samples = reader.samples::<i16>().collect::<Result<Vec<i16>, _>>().ok()?;
    let sample_format = match h.sample_format {
        hound::SampleFormat::Float => SampleFormat::Float,
        hound::SampleFormat::Int => SampleFormat::Int,
    };
    Some((samples, WavSpec { channels: h.channels, sample_rate: h.sample_rate,
        bits_per_sample: h.bits_per_sample, sample_format }))
}

/// Writes `samples` as a WAV file in memory. Fails with `WavEncoding` exactly
/// when the samples and format cannot make one (see `wav_encodable`).
pub fn encode_wav_image(samples: &[i16], spec: &WavSpec) -> (image: Result<Vec<u8>, CodecError>)
    ensures
        match image {
            Ok(b) => wav_encodable(samples@, *spec) && b@ == wav_image(
                samples@,
                spec.channels,
                spec.sample_rate,
                spec.bits_per_sample,
                is_float(spec.sample_format),
            ),
            Err(e) => !wav_encodable(samples@, *spec) && e == CodecError::WavEncoding,
        },
{
    let bits = spec.bits_per_sample;
    let float = match spec.sample_format {
        SampleFormat::Float => true,
        SampleFormat::Int => false,
    };
    if !(bits == 8 || bits == 16 || bits == 24 || bits == 32) || (float && bits != 32)
        || spec.channels == 0
        || spec.sample_rate == 0 || samples.len() > MAX_WAV_SAMPLES {
        return Err(CodecError::WavEncoding);
    }
    let bytes: u64 = (bits as u64 + 7) / 8;
    assert(spec.sample_rate * bytes <= 0xffff_ffffu64 * 4 && spec.sample_rate * bytes
        * spec.channels <= 0xffff_ffffu64 * 4 * 0xffff) by (nonlinear_arith)
        requires
            spec.sample_rate <= 0xffff_ffffu64,
            bytes <= 4,
            spec.channels <= 0xffff,
    ;
    if spec.sample_rate as u64 * bytes * spec.channels as u64 > u32::MAX as u64 {
        return Err(CodecError::WavEncoding);
    }
    match write_wav(samples, *spec) {
        Some(b) => Ok(b),
        None => Err(CodecError::WavEncoding),
    }
}

/// Reads a WAV file in memory as 16-bit samples and their format. Fails with
/// `WavDecoding` exactly where hound refuses the bytes.
pub fn decode_wav_image(bytes: &[u8]) -> (contents: Result<(Vec<i16>, WavSpec), CodecError>)
    ensures
        match contents {
            Ok((s, f)) => wav_contents(bytes@) == Some(
                (s@, f.channels, f.sample_rate, f.bits_per_sample, is_float(f.sample_format)),
            ),
            Err(e) => wav_contents(bytes@).is_none() && e == CodecError::WavDecoding,
        },
{
    match read_wav(bytes) {
        Some(c) => Ok(c),
        None => Err(CodecError::WavDecoding),
    }
}

} // verus!
