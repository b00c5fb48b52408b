use audio_codecs::total_sizes;

#[test]
fn totals_add_up() {
    assert_eq!(total_sizes(&[(100, 40), (50, 10), (7, 7)]), (157, 57));
    assert_eq!(total_sizes(&[]), (0, 0));
}

#[test]
fn totals_saturate() {
    assert_eq!(total_sizes(&[(u64::MAX, 1), (5, 2)]), (u64::MAX, 3));
}
