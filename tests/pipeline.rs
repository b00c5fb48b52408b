use audio_codecs::{quantize_and_pack, unpack_and_restore, CodecError, PackedSamples};

#[test]
fn ten_bit_pipeline_of_three_samples() {
    let packed = quantize_and_pack(&[-32768, 0, 32767], 10).unwrap();
    assert_eq!(packed.width, 10);
    assert_eq!(packed.count, 3);
    assert_eq!(packed.words, vec![0, 16376]);
    assert_eq!(unpack_and_restore(&packed), Ok(vec![-32768, 0, 32704]));
}

#[test]
fn pipeline_rejects_bad_widths() {
    assert!(matches!(quantize_and_pack(&[1], 0), Err(CodecError::InvalidWidth)));
    assert!(matches!(quantize_and_pack(&[1], 17), Err(CodecError::InvalidWidth)));
    let packed = PackedSamples { width: 20, count: 1, words: vec![0] };
    assert_eq!(unpack_and_restore(&packed), Err(CodecError::InvalidWidth));
}

#[test]
fn pipeline_stays_within_one_step() {
    let samples: Vec<i16> = (0..2000i32).map(|i| ((i * 7919) % 65536 - 32768) as i16).collect();
    for width in 1u32..=16 {
        let packed = quantize_and_pack(&samples, width).unwrap();
        assert_eq!(packed.words.len(), (samples.len() * width as usize + 15) / 16);
        let back = unpack_and_restore(&packed).unwrap();
        assert_eq!(back.len(), samples.len());
        let step = 1i32 << (16 - width);
        for (s, b) in samples.iter().zip(back.iter()) {
            let err = *s as i32 - *b as i32;
            assert!(0 <= err && err < step);
        }
    }
}
