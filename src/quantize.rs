use vstd::arithmetic::div_mod::{
    lemma_div_is_ordered, lemma_fundamental_div_mod, lemma_multiply_divide_lt, lemma_small_mod,
};
use vstd::arithmetic::power2::{lemma2_to64, lemma_pow2_adds, lemma_pow2_pos, lemma_pow2_strictly_increases, pow2};
use vstd::bits::{lemma_u32_pow2_no_overflow, lemma_u32_shl_is_mul, lemma_u32_shr_is_div};
use vstd::prelude::*;

verus! {

/// Code width of the fixed ten-bit pipeline.
pub const TEN_BITS: u32 = 10;

/// Offset that maps the signed 16-bit range onto `0..65536`.
pub const SAMPLE_OFFSET: i32 = 32768;

/// A width that the quantizer and the bit packer accept.
pub open spec fn valid_width(width: int) -> bool {
    1 <= width <= 16
}

/// Number of sample values that fall into one code at `width` bits.
pub open spec fn step(width: nat) -> nat {
    pow2((16 - width) as nat)
}

/// The code of `sample` at `width` bits: `(sample - i16::MIN) >> (16 - width)`.
pub open spec fn quantize(sample: int, width: nat) -> int {
    (sample + SAMPLE_OFFSET) / (step(width) as int)
}

/// The sample that the code `code` stands for at `width` bits:
/// `(code << (16 - width)) + i16::MIN`.
pub open spec fn dequantize(code: int, width: nat) -> int {
    code * step(width) - SAMPLE_OFFSET
}

proof fn lemma_step_split(width: nat)
    requires
        valid_width(width as int),
    ensures
        step(width) * pow2(width) == 0x10000,
        0 < step(width) <= 0x8000,
        0 < pow2(width) <= 0x10000,
{
    lemma_pow2_adds((16 - width) as nat, width);
    lemma2_to64();
    lemma_pow2_pos((16 - width) as nat);
    lemma_pow2_pos(width);
    if width < 16 {
        lemma_pow2_strictly_increases(width, 16);
    }
    if width > 1 {
        lemma_pow2_strictly_increases((16 - width) as nat, 15);
    }
}

/// Maps a signed sample onto a `width`-bit code, dropping the low
/// `16 - width` bits. Lossy: every `step(width)` neighbouring samples share a code.
pub fn scale_down(sample: i16, width: u32) -> (code: u16)
    requires
        valid_width(width as int),
    ensures
        code as int == quantize(sample as int, width as nat),
        (code as int) < pow2(width as nat),
{
    let shift: u32 = 16 - width;
    let biased: u32 = (sample as i32 + SAMPLE_OFFSET) as u32;
    proof {
        lemma_step_split(width as nat);
        lemma_u32_shr_is_div(biased, shift);
        lemma_multiply_divide_lt(biased as int, step(width as nat) as int, pow2(width as nat) as int);
    }
    (biased >> shift) as u16
}

/// Maps a `width`-bit code back to the lowest sample of its bucket. Bits of
/// `code` above `width` are ignored.
pub fn scale_up(code: u16, width: u32) -> (sample: i16)
    requires
        valid_width(width as int),
    ensures
        sample as int == dequantize(code as int % pow2(width as nat) as int, width as nat),
{
    let shift: u32 = 16 - width;
    proof {
        lemma_step_split(width as nat);
        lemma_u32_pow2_no_overflow(width as nat);
        lemma_u32_shl_is_mul(1, width);
    }
    let modulus: u32 = 1u32 << width;
    let low: u32 = code as u32 % modulus;
    proof {
        assert(low * step(width as nat) < 0x10000) by (nonlinear_arith)
            requires
                low < pow2(width as nat),
                step(width as nat) * pow2(width as nat) == 0x10000,
                step(width as nat) > 0,
        ;
        lemma_u32_shl_is_mul(low, shift);
    }
    ((low << shift) as i32 - SAMPLE_OFFSET) as i16
}

/// Quantizing then restoring a sample lands at most one step below it: the
/// restored value is the lowest sample of the original's bucket.
pub proof fn lemma_quantize_error(sample: i16, width: nat)
    requires
        valid_width(width as int),
    ensures
        0 <= quantize(sample as int, width) < pow2(width),
        dequantize(quantize(sample as int, width) % pow2(width) as int, width) <= sample,
        sample < dequantize(quantize(sample as int, width) % pow2(width) as int, width) + step(
            width,
        ),
{
    lemma_step_split(width);
    let d = step(width) as int;
    let b = sample + SAMPLE_OFFSET;
    let q = quantize(sample as int, width);
    lemma_multiply_divide_lt(b, d, pow2(width) as int);
    lemma_small_mod(q as nat, pow2(width));
    lemma_fundamental_div_mod(b, d);
}

/// `quantize` never decreases as the sample grows.
pub proof fn lemma_quantize_monotonic(a: i16, b: i16, width: nat)
    requires
        valid_width(width as int),
        a <= b,
    ensures
        quantize(a as int, width) <= quantize(b as int, width),
{
    lemma_step_split(width);
    lemma_div_is_ordered(a + SAMPLE_OFFSET, b + SAMPLE_OFFSET, step(width) as int);
}

/// Quantizes each sample to ten bits.
pub fn scale_to_10_bits(samples: &[i16]) -> (codes: Vec<u16>)
    ensures
        codes@.len() == samples@.len(),
        forall|i: int|
            0 <= i < samples@.len() ==> #[trigger] codes@[i] as int == quantize(
                samples@[i] as int,
                TEN_BITS as nat,
            ),
{
    let mut codes: Vec<u16> = Vec::with_capacity(samples.len());
    let mut i: usize = 0;
    while i < samples.len()
        invariant
            i <= samples@.len(),
            codes@.len() == i,
            forall|j: int|
                0 <= j < i ==> #[trigger] codes@[j] as int == quantize(
                    samples@[j] as int,
                    TEN_BITS as nat,
                ),
        decreases samples@.len() - i,
    {
        codes.push(scale_down(samples[i], TEN_BITS));
        i = i + 1;
    }
    codes
}

/// Restores each ten-bit code to a sample; bits above the tenth are ignored.
pub fn scale_from_10_bits(codes: &[u16]) -> (samples: Vec<i16>)
    ensures
        samples@.len() == codes@.len(),
        forall|i: int|
            0 <= i < codes@.len() ==> #[trigger] samples@[i] as int == dequantize(
                codes@[i] as int % 1024,
                TEN_BITS as nat,
            ),
{
    proof {
        lemma2_to64();
    }
    let mut samples: Vec<i16> = Vec::with_capacity(codes.len());
    let mut i: usize = 0;
    while i < codes.len()
        invariant
            pow2(10) == 1024,
            i <= codes@.len(),
            samples@.len() == i,
            forall|j: int|
                0 <= j < i ==> #[trigger] samples@[j] as int == dequantize(
                    codes@[j] as int % 1024,
                    TEN_BITS as nat,
                ),
        decreases codes@.len() - i,
    {
        samples.push(scale_up(codes[i], TEN_BITS));
        i = i + 1;
    }
    samples
}

} // verus!
