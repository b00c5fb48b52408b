use audio_codecs::{byte_differences, ByteMismatch, ExtraBytes};

#[test]
fn identical_buffers_have_no_differences() {
    let d = byte_differences(&[1, 2, 3], &[1, 2, 3]);
    assert!(d.mismatches.is_empty());
    assert!(!d.limit_reached);
    assert_eq!(d.common_len, 3);
    assert_eq!(d.extra, ExtraBytes::Neither);
}

#[test]
fn mismatches_and_longer_original() {
    let d = byte_differences(&[1, 2, 3, 4, 5], &[1, 9, 3, 8]);
    assert_eq!(
        d.mismatches,
        vec![
            ByteMismatch { offset: 1, original: 2, decompressed: 9 },
            ByteMismatch { offset: 3, original: 4, decompressed: 8 },
        ]
    );
    assert_eq!(d.common_len, 4);
    assert_eq!(d.extra, ExtraBytes::Original);
}

#[test]
fn longer_decompressed_copy() {
    let d = byte_differences(&[], &[1]);
    assert_eq!(d.common_len, 0);
    assert_eq!(d.extra, ExtraBytes::Decompressed);
}

#[test]
fn listing_stops_after_passing_the_limit() {
    let a = vec![0u8; 40];
    let b = vec![1u8; 40];
    let d = byte_differences(&a, &b);
    assert_eq!(d.mismatches.len(), 21);
    assert!(d.limit_reached);
    assert_eq!(d.mismatches[20].offset, 20);

    let d = byte_differences(&a[..20], &b[..20]);
    assert_eq!(d.mismatches.len(), 20);
    assert!(!d.limit_reached);

    let d = byte_differences(&a[..21], &b[..21]);
    assert_eq!(d.mismatches.len(), 21);
    assert!(d.limit_reached);
}
