use audio_codecs::{pack_10_bit_values, pack_codes, unpack_10_bit_values, unpack_codes, CodecError};

fn codes_for(width: u32, n: usize) -> Vec<u16> {
    let mask: u32 = if width == 16 { 0xFFFF } else { (1u32 << width) - 1 };
    let mut state: u32 = 7 + width;
    (0..n)
        .map(|_| {
            state = state.wrapping_mul(1664525).wrapping_add(1013904223);
            ((state >> 8) & mask) as u16
        })
        .collect()
}

#[test]
fn three_ten_bit_codes_fill_two_words() {
    let words = pack_codes(&[1, 2, 3], 10).unwrap();
    assert_eq!(words, vec![2049, 48]);
    assert_eq!(unpack_codes(&words, 10, 3), Ok(vec![1, 2, 3]));
}

#[test]
fn nothing_packs_to_nothing() {
    assert_eq!(pack_codes(&[], 7), Ok(Vec::new()));
    assert_eq!(unpack_codes(&[], 7, 0), Ok(Vec::new()));
}

#[test]
fn widths_outside_one_to_sixteen_are_rejected() {
    assert_eq!(pack_codes(&[1], 0), Err(CodecError::InvalidWidth));
    assert_eq!(pack_codes(&[1], 17), Err(CodecError::InvalidWidth));
    assert_eq!(unpack_codes(&[1], 0, 1), Err(CodecError::InvalidWidth));
    assert_eq!(unpack_codes(&[1], 17, 1), Err(CodecError::InvalidWidth));
}

#[test]
fn sixteen_bit_codes_are_the_words() {
    assert_eq!(pack_codes(&[0xFFFF, 1, 0x8000], 16), Ok(vec![0xFFFF, 1, 0x8000]));
}

#[test]
fn one_bit_codes_cross_a_word() {
    let words = pack_codes(&[1u16; 17], 1).unwrap();
    assert_eq!(words, vec![0xFFFF, 1]);
    assert_eq!(unpack_codes(&words, 1, 17), Ok(vec![1u16; 17]));
}

#[test]
fn count_past_the_words_reads_zero_codes() {
    let words = pack_codes(&[1, 2, 3], 10).unwrap();
    assert_eq!(unpack_codes(&words, 10, 5), Ok(vec![1, 2, 3, 0, 0]));
    assert_eq!(unpack_codes(&words, 10, 2), Ok(vec![1, 2]));
}

#[test]
fn high_bits_of_codes_are_dropped() {
    assert_eq!(pack_codes(&[1024 + 1, 3], 10), pack_codes(&[1, 3], 10));
}

#[test]
fn every_width_round_trips_with_exact_word_count() {
    for width in 1u32..=16 {
        for n in [0usize, 1, 2, 3, 7, 8, 15, 16, 17, 100] {
            let codes = codes_for(width, n);
            let words = pack_codes(&codes, width).unwrap();
            assert_eq!(words.len(), (n * width as usize + 15) / 16, "width {} n {}", width, n);
            assert_eq!(unpack_codes(&words, width, n), Ok(codes), "width {} n {}", width, n);
        }
    }
}

#[test]
fn last_word_is_zero_filled() {
    let words = pack_codes(&[0x3FF], 10).unwrap();
    assert_eq!(words, vec![0x3FF]);
    let words = pack_codes(&[0x7], 3).unwrap();
    assert_eq!(words, vec![0x7]);
}

#[test]
fn ten_bit_packing() {
    assert_eq!(pack_10_bit_values(&[1, 2, 3]), vec![2049, 48]);
    assert_eq!(pack_10_bit_values(&[1023, 1023]), vec![0xFFFF, 15]);
    assert_eq!(pack_10_bit_values(&[1, 2, 3, 4, 5]), vec![2049, 48, 1281, 0]);
    assert_eq!(pack_10_bit_values(&[]), Vec::<u16>::new());
}

#[test]
fn ten_bit_unpacking_reads_exactly_count_codes() {
    assert_eq!(unpack_10_bit_values(&[2049, 48], 3), vec![1, 2, 3]);
    assert_eq!(unpack_10_bit_values(&pack_10_bit_values(&[1, 2]), 2), vec![1, 2]);
    assert_eq!(unpack_10_bit_values(&[2049, 48, 1281, 0], 5), vec![1, 2, 3, 4, 5]);
    assert_eq!(unpack_10_bit_values(&[0xFFFF], 0), Vec::<u16>::new());
    assert_eq!(unpack_10_bit_values(&[0xFFFF], 1), vec![1023]);
    assert_eq!(unpack_10_bit_values(&[], 2), vec![0, 0]);
}

#[test]
fn ten_bit_round_trip() {
    let codes = codes_for(10, 333);
    let words = pack_10_bit_values(&codes);
    assert_eq!(words.len(), (333 * 10 + 15) / 16);
    assert_eq!(unpack_10_bit_values(&words, codes.len()), codes);
}
