use crate::bitpack::{
    lemma_pack_round_trip, pack_valid, packed_words, unpack_valid, unpacked_codes, WORD_BITS,
};
use crate::error::CodecError;
use crate::quantize::{
    dequantize, lemma_quantize_error, quantize, scale_down, scale_up, step, valid_width,
};
use vstd::arithmetic::power2::pow2;
use vstd::prelude::*;

verus! {

/// Samples quantized to `width` bits and packed into words, with the width
/// and the number of codes that reading them back needs.
#[derive(Clone, Debug)]
pub struct PackedSamples {
    pub width: u32,
    pub count: usize,
    pub words: Vec<u16>,
}

/// The `width`-bit codes of `samples`.
pub open spec fn quantized(samples: Seq<i16>, width: nat) -> Seq<u16> {
    Seq::new(samples.len(), |i: int| quantize(samples[i] as int, width) as u16)
}

/// The samples that `codes` of `width` bits stand for.
pub open spec fn restored(codes: Seq<u16>, width: nat) -> Seq<int> {
    Seq::new(codes.len(), |i: int| dequantize(codes[i] as int % pow2(width) as int, width))
}

/// Quantizes every sample to `width` bits and packs the codes. Fails with
/// `InvalidWidth` unless `1 <= width <= 16`.
pub fn quantize_and_pack(samples: &[i16], width: u32) -> (packed: Result<PackedSamples, CodecError>)
    ensures
        match packed {
            Ok(p) => valid_width(width as int) && p.width == width && p.count == samples@.len()
                && p.words@ == packed_words(quantized(samples@, width as nat), width as nat),
            Err(e) => !valid_width(width as int) && e == CodecError::InvalidWidth,
        },
{
    if width < 1 || width > WORD_BITS {
        return Err(CodecError::InvalidWidth);
    }
    let mut codes: Vec<u16> = Vec::with_capacity(samples.len());
    let mut i: usize = 0;
    while i < samples.len()
        invariant
            valid_width(width as int),
            i <= samples@.len(),
            codes@ == quantized(samples@, width as nat).take(i as int),
        decreases samples@.len() - i,
    {
        codes.push(scale_down(samples[i], width));
        i = i + 1;
        proof {
            assert(codes@ =~= quantized(samples@, width as nat).take(i as int));
        }
    }
    proof {
        assert(codes@ =~= quantized(samples@, width as nat));
    }
    let words = pack_valid(codes.as_slice(), width);
    Ok(PackedSamples { width, count: samples.len(), words })
}

/// Unpacks `packed.count` codes and restores each to the lowest sample of
/// its bucket. Fails with `InvalidWidth` unless `1 <= packed.width <= 16`.
pub fn unpack_and_restore(packed: &PackedSamples) -> (samples: Result<Vec<i16>, CodecError>)
    ensures
        match samples {
            Ok(s) => valid_width(packed.width as int) && s@.len() == packed.count && forall|i: int|
                0 <= i < s@.len() ==> #[trigger] s@[i] as int == restored(
                    unpacked_codes(packed.words@, packed.width as nat, packed.count as nat),
                    packed.width as nat,
                )[i],
            Err(e) => !valid_width(packed.width as int) && e == CodecError::InvalidWidth,
        },
{
    let width = packed.width;
    if width < 1 || width > WORD_BITS {
        return Err(CodecError::InvalidWidth);
    }
    let codes = unpack_valid(packed.words.as_slice(), width, packed.count);
    let mut samples: Vec<i16> = Vec::with_capacity(codes.len());
    let mut i: usize = 0;
    while i < codes.len()
        invariant
            valid_width(width as int),
            i <= codes@.len(),
            samples@.len() == i,
            forall|j: int|
                0 <= j < i ==> #[trigger] samples@[j] as int == restored(codes@, width as nat)[j],
        decreases codes@.len() - i,
    {
        samples.push(scale_up(codes[i], width));
        i = i + 1;
    }
    Ok(samples)
}

/// Packing quantized samples and reading them back restores every sample to
/// the lowest value of its bucket: at most one quantization step below it.
pub proof fn lemma_pipeline_fidelity(samples: Seq<i16>, width: nat)
    requires
        valid_width(width as int),
    ensures
        ({
            let back = restored(
                unpacked_codes(
                    packed_words(quantized(samples, width), width),
                    width,
                    samples.len(),
                ),
                width,
            );
            &&& back.len() == samples.len()
            &&& forall|i: int|
                0 <= i < samples.len() ==> #[trigger] back[i] <= samples[i] < back[i] + step(width)
        }),
{
    let codes = quantized(samples, width);
    assert forall|i: int| 0 <= i < codes.len() implies (#[trigger] codes[i] as int) < pow2(
        width,
    ) by {
        lemma_quantize_error(samples[i], width);
    }
    lemma_pack_round_trip(codes, width);
    let back = restored(unpacked_codes(packed_words(codes, width), width, samples.len()), width);
    assert forall|i: int| 0 <= i < samples.len() implies #[trigger] back[i] <= samples[i] < back[i]
        + step(width) by {
        lemma_quantize_error(samples[i], width);
    }
}

} // verus!
