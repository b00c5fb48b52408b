use audio_codecs::{run_length_decode, run_length_encode, CodecError};

fn varied_bytes(n: usize) -> Vec<u8> {
    let mut state: u32 = 12345;
    let mut out = Vec::with_capacity(n);
    while out.len() < n {
        state = state.wrapping_mul(1103515245).wrapping_add(12345);
        let value = (state >> 16) as u8 % 4;
        let run = 1 + ((state >> 8) as usize % 300);
        for _ in 0..run {
            if out.len() < n {
                out.push(value);
            }
        }
    }
    out
}

#[test]
fn encodes_runs_as_count_value_pairs() {
    let encoded = run_length_encode(vec![5, 5, 5, 7]);
    assert_eq!(encoded, vec![3, 5, 1, 7]);
    assert_eq!(run_length_decode(encoded), Ok(vec![5, 5, 5, 7]));
}

#[test]
fn empty_input_round_trips() {
    assert_eq!(run_length_encode(Vec::new()), Vec::<u8>::new());
    assert_eq!(run_length_decode(Vec::new()), Ok(Vec::new()));
}

#[test]
fn odd_token_stream_is_malformed() {
    assert_eq!(run_length_decode(vec![3]), Err(CodecError::MalformedStream));
    assert_eq!(run_length_decode(vec![2, 9, 4]), Err(CodecError::MalformedStream));
}

#[test]
fn run_of_300_splits_into_255_and_45() {
    let input = vec![9u8; 300];
    let encoded = run_length_encode(input.clone());
    assert_eq!(encoded, vec![255, 9, 45, 9]);
    assert_eq!(run_length_decode(encoded), Ok(input));
}

#[test]
fn run_lengths_at_the_token_limit() {
    assert_eq!(run_length_encode(vec![4u8; 255]), vec![255, 4]);
    assert_eq!(run_length_encode(vec![4u8; 256]), vec![255, 4, 1, 4]);
    assert_eq!(run_length_encode(vec![4u8; 510]), vec![255, 4, 255, 4]);
    assert_eq!(run_length_encode(vec![4u8; 766]), vec![255, 4, 255, 4, 255, 4, 1, 4]);
}

#[test]
fn long_run_between_other_bytes() {
    let mut input = vec![1u8];
    input.extend(vec![2u8; 600]);
    input.push(3);
    let encoded = run_length_encode(input.clone());
    assert_eq!(encoded, vec![1, 1, 255, 2, 255, 2, 90, 2, 1, 3]);
    let run_tokens = &encoded[2..8];
    let counts: u32 = run_tokens.chunks(2).map(|t| t[0] as u32).sum();
    assert_eq!(counts, 600);
    assert!(run_tokens.chunks(2).all(|t| t[1] == 2));
    assert_eq!(run_tokens.len() / 2, (600 + 254) / 255);
    assert_eq!(run_length_decode(encoded), Ok(input));
}

#[test]
fn alternating_bytes_double_in_size() {
    let input = vec![1u8, 2, 1, 2, 1];
    let encoded = run_length_encode(input.clone());
    assert_eq!(encoded, vec![1, 1, 1, 2, 1, 1, 1, 2, 1, 1]);
    assert_eq!(encoded.len(), 2 * input.len());
}

#[test]
fn varied_input_round_trips() {
    for n in [1usize, 2, 17, 1000, 5000] {
        let input = varied_bytes(n);
        let encoded = run_length_encode(input.clone());
        assert!(encoded.chunks(2).all(|t| t[0] >= 1));
        assert_eq!(run_length_decode(encoded), Ok(input));
    }
}

#[test]
fn zero_count_tokens_expand_to_nothing() {
    assert_eq!(run_length_decode(vec![0, 8, 2, 6]), Ok(vec![6, 6]));
}
