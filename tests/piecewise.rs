use audio_codecs::{compress_segments, decompress_segments, Level, Segment};

fn seg(start: usize, start_value: i16, rise: i32, run: usize) -> Segment {
    Segment { start, start_value, rise, run }
}

fn lv(numerator: i128, denominator: usize) -> Level {
    Level { numerator, denominator }
}

#[test]
fn flat_run_then_ramp() {
    assert_eq!(compress_segments(&[1, 1, 3, 3, 3]), vec![seg(0, 1, 2, 2)]);
}

#[test]
fn trailing_run_is_dropped() {
    assert_eq!(compress_segments(&[]), Vec::<Segment>::new());
    assert_eq!(compress_segments(&[7]), Vec::<Segment>::new());
    assert_eq!(compress_segments(&[7, 7, 7]), Vec::<Segment>::new());
    assert_eq!(compress_segments(&[0, 10, 10, 4]), vec![seg(0, 0, 10, 1), seg(1, 10, -6, 2)]);
}

#[test]
fn extreme_slope_fits() {
    assert_eq!(compress_segments(&[i16::MIN, i16::MAX]), vec![seg(0, i16::MIN, 65535, 1)]);
}

#[test]
fn later_segments_overwrite_from_their_start() {
    let segments = vec![seg(0, 0, 10, 1), seg(1, 10, -6, 2)];
    assert_eq!(
        decompress_segments(&segments, 4),
        vec![lv(0, 1), lv(20, 2), lv(14, 2), lv(8, 2)]
    );
}

#[test]
fn segment_order_decides_not_start() {
    let segments = vec![seg(2, 5, 0, 1), seg(0, 1, 1, 1)];
    assert_eq!(decompress_segments(&segments, 4), vec![lv(1, 1), lv(2, 1), lv(3, 1), lv(4, 1)]);
}

#[test]
fn uncovered_and_out_of_range() {
    let segments = vec![seg(2, 3, 0, 1), seg(9, 1, 1, 1)];
    assert_eq!(decompress_segments(&segments, 4), vec![lv(0, 1), lv(0, 1), lv(3, 1), lv(3, 1)]);
    assert_eq!(decompress_segments(&[], 2), vec![lv(0, 1), lv(0, 1)]);
    assert_eq!(decompress_segments(&segments, 0), Vec::<Level>::new());
}

#[test]
fn compressed_ramp_reconstructs_its_span() {
    let samples = [1i16, 1, 3, 3, 3];
    let segments = compress_segments(&samples);
    let levels = decompress_segments(&segments, samples.len());
    assert_eq!(levels, vec![lv(2, 2), lv(4, 2), lv(6, 2), lv(8, 2), lv(10, 2)]);
}
