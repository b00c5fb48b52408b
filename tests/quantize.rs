use audio_codecs::{scale_down, scale_from_10_bits, scale_to_10_bits, scale_up};

#[test]
fn range_floor_has_no_error() {
    assert_eq!(scale_down(-32768, 10), 0);
    assert_eq!(scale_up(0, 10), -32768);
}

#[test]
fn ten_bit_codes_of_known_samples() {
    assert_eq!(scale_down(32767, 10), 1023);
    assert_eq!(scale_up(1023, 10), 32704);
    assert_eq!(scale_down(0, 10), 512);
    assert_eq!(scale_down(-1, 10), 511);
    assert_eq!(scale_down(-32768 + 63, 10), 0);
    assert_eq!(scale_down(-32768 + 64, 10), 1);
    assert_eq!(scale_up(512, 10), 0);
}

#[test]
fn full_width_is_lossless() {
    for s in [-32768i16, -1, 0, 1, 12345, 32767] {
        assert_eq!(scale_down(s, 16) as i32, s as i32 + 32768);
        assert_eq!(scale_up(scale_down(s, 16), 16), s);
    }
}

#[test]
fn one_bit_codes() {
    assert_eq!(scale_down(-1, 1), 0);
    assert_eq!(scale_down(0, 1), 1);
    assert_eq!(scale_up(1, 1), 0);
    assert_eq!(scale_up(0, 1), -32768);
}

#[test]
fn restored_sample_is_within_one_step_below() {
    for width in 1u32..=16 {
        let step = 1i32 << (16 - width);
        for s in i16::MIN..=i16::MAX {
            let back = scale_up(scale_down(s, width), width) as i32;
            let err = s as i32 - back;
            assert!(0 <= err && err < step, "width {} sample {}", width, s);
        }
    }
}

#[test]
fn scale_down_never_decreases() {
    for width in [1u32, 5, 10, 16] {
        let mut last = scale_down(i16::MIN, width);
        for s in (i16::MIN + 1)..=i16::MAX {
            let code = scale_down(s, width);
            assert!(code >= last);
            assert!((code as u32) < (1u32 << width));
            last = code;
        }
    }
}

#[test]
fn bits_above_the_width_are_ignored() {
    assert_eq!(scale_up(1024 + 5, 10), scale_up(5, 10));
    assert_eq!(scale_from_10_bits(&[1024]), vec![-32768]);
}

#[test]
fn ten_bit_slices() {
    let samples = [-32768i16, -1, 0, 100, 32767];
    let codes = scale_to_10_bits(&samples);
    assert_eq!(codes, vec![0, 511, 512, 513, 1023]);
    assert_eq!(scale_from_10_bits(&codes), vec![-32768, -64, 0, 64, 32704]);
    assert_eq!(scale_to_10_bits(&[]), Vec::<u16>::new());
}
