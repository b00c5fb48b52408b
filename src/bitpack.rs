use crate::error::CodecError;
use crate::positional::{
    digits_of, lemma_digits_value, lemma_high_part_invisible, lemma_packed_digit,
    lemma_packed_value_bound, lemma_packed_value_split, lemma_pow2_mul_step, packed_value,
};
use crate::quantize::{valid_width, TEN_BITS};
use vstd::arithmetic::div_mod::{
    lemma_div_denominator, lemma_hoist_over_denominator, lemma_multiply_divide_lt, lemma_small_mod,
};
use vstd::arithmetic::power2::{
    lemma2_to64, lemma_pow2_adds, lemma_pow2_pos, lemma_pow2_strictly_increases, pow2,
};
use vstd::bits::{lemma_u32_pow2_no_overflow, lemma_u32_shl_is_mul};
use vstd::prelude::*;

verus! {

/// Bits in one packed word.
pub const WORD_BITS: u32 = 16;

/// Words that `n` codes of `width` bits fill: `ceil(n * width / 16)`.
pub open spec fn packed_len(n: nat, width: nat) -> nat {
    (n * width + 15) / 16
}

/// The packed form of `codes`: their low `width` bits laid end to end, least
/// significant bit first, cut into 16-bit words, the last one zero-filled.
pub open spec fn packed_words(codes: Seq<u16>, width: nat) -> Seq<u16> {
    digits_of(packed_value(codes, width), 16, packed_len(codes.len(), width))
}

/// The first `count` codes of `width` bits read back from `words`; bit
/// positions past the last word read as zero.
pub open spec fn unpacked_codes(words: Seq<u16>, width: nat, count: nat) -> Seq<u16> {
    digits_of(packed_value(words, 16), width, count)
}

proof fn lemma_modulus(width: u32)
    requires
        valid_width(width as int),
    ensures
        1u32 << width == pow2(width as nat),
        0 < pow2(width as nat) <= 0x10000,
        pow2(16) == 0x10000,
{
    lemma_u32_pow2_no_overflow(width as nat);
    lemma_u32_shl_is_mul(1, width);
    lemma2_to64();
    if width < 16 {
        lemma_pow2_strictly_increases(width as nat, 16);
    }
}

pub(crate) fn pack_valid(codes: &[u16], width: u32) -> (words: Vec<u16>)
    requires
        valid_width(width as int),
    ensures
        words@ == packed_words(codes@, width as nat),
        packed_value(words@, 16) == packed_value(codes@, width as nat),
{
    let n = codes.len();
    proof {
        lemma_modulus(width);
    }
    let modulus: u32 = 1u32 << width;
    let mut words: Vec<u16> = Vec::new();
    let mut buffer: u32 = 0;
    let mut bits: u32 = 0;
    let mut i: usize = 0;
    proof {
        assert(codes@.take(0) =~= Seq::<u16>::empty());
        lemma2_to64();
    }
    while i < n
        invariant
            n == codes@.len(),
            valid_width(width as int),
            modulus == pow2(width as nat),
            0 < modulus,
            pow2(16) == 0x10000,
            i <= n,
            bits < 16,
            width * i == 16 * words@.len() + bits,
            buffer < pow2(bits as nat),
            packed_value(words@, 16) + buffer * pow2(16 * words@.len()) == packed_value(
                codes@.take(i as int),
                width as nat,
            ),
        decreases n - i,
    {
        let code: u32 = codes[i] as u32 % modulus;
        let ghost len = words@.len();
        let ghost p = pow2(16 * len) as int;
        let ghost pb = pow2(bits as nat) as int;
        let ghost pw = pow2(width as nat) as int;
        proof {
            lemma_pow2_pos(bits as nat);
            lemma_pow2_pos(width as nat);
            lemma_pow2_pos(16 * len);
            lemma_pow2_adds(width as nat, bits as nat);
            lemma_pow2_adds(16 * len, bits as nat);
            lemma_u32_pow2_no_overflow((width + bits) as nat);
            assert(code * pb < pw * pb) by (nonlinear_arith)
                requires
                    code < pw,
                    pb > 0,
            ;
            lemma_u32_shl_is_mul(code, bits);
            assert(buffer + code * pb < pw * pb) by (nonlinear_arith)
                requires
                    buffer < pb,
                    code < pw,
                    pb > 0,
            ;
            assert(codes@.take(i + 1).drop_last() =~= codes@.take(i as int));
            assert((width * (i + 1)) as nat == 16 * len + bits + width) by (nonlinear_arith)
                requires
                    width * i == 16 * len + bits,
            ;
            assert((width * i) as nat == 16 * len + bits);
            assert(p * (buffer + code * pb) == p * buffer + code * (p * pb)) by (nonlinear_arith);
            assert(buffer * p == p * buffer) by (nonlinear_arith);
        }
        buffer = buffer + (code << bits);
        bits = bits + width;
        proof {
            assert(packed_value(words@, 16) + buffer * p == packed_value(
                codes@.take(i + 1),
                width as nat,
            )) by (nonlinear_arith)
                requires
                    packed_value(words@, 16) + (buffer - code * pb) * p == packed_value(
                        codes@.take(i as int),
                        width as nat,
                    ),
                    packed_value(codes@.take(i + 1), width as nat) == packed_value(
                        codes@.take(i as int),
                        width as nat,
                    ) + code * (p * pb),
            ;
        }
        if bits >= WORD_BITS {
            let low: u16 = (buffer % 0x1_0000) as u16;
            let high: u32 = buffer / 0x1_0000;
            let ghost old_words = words@;
            proof {
                lemma_pow2_adds(16, (bits - 16) as nat);
                lemma_multiply_divide_lt(buffer as int, 0x10000, pow2((bits - 16) as nat) as int);
                lemma_pow2_adds(16 * len, 16);
                assert(16 * (len + 1) == 16 * len + 16);
                assert(p * buffer == p * low + high * (p * 0x10000)) by (nonlinear_arith)
                    requires
                        buffer == low + 0x10000 * high,
                ;
                assert(buffer * p == p * buffer) by (nonlinear_arith);
                assert(old_words.push(low).drop_last() =~= old_words);
            }
            words.push(low);
            buffer = high;
            bits = bits - WORD_BITS;
            proof {
                lemma_small_mod(low as nat, 0x10000);
                assert(packed_value(words@, 16) == packed_value(old_words, 16) + low * p);
                assert(pow2(16 * words@.len()) == p * 0x10000);
            }
        }
        i = i + 1;
    }
    let ghost len = words@.len();
    proof {
        assert(codes@.take(n as int) =~= codes@);
        lemma_pow2_pos(16 * len);
    }
    if bits > 0 {
        proof {
            lemma_pow2_strictly_increases(bits as nat, 16);
            assert(words@.push(buffer as u16).drop_last() =~= words@);
            assert(buffer * pow2(16 * len) == (buffer as int % 0x10000) * pow2(16 * len));
        }
        words.push(buffer as u16);
    } else {
        proof {
            lemma2_to64();
        }
    }
    let ghost value = packed_value(codes@, width as nat);
    proof {
        assert(n * width == width * n) by (nonlinear_arith);
        assert(packed_value(words@, 16) == value);
        assert(words@.len() == packed_len(n as nat, width as nat));
        assert forall|k: int| 0 <= k < words@.len() implies #[trigger] words@[k] == packed_words(
            codes@,
            width as nat,
        )[k] by {
            lemma_packed_digit(words@, 16, k as nat);
            lemma_small_mod(words@[k] as nat, 0x10000);
        }
        assert(words@ =~= packed_words(codes@, width as nat));
    }
    words
}

pub(crate) fn unpack_valid(words: &[u16], width: u32, count: usize) -> (codes: Vec<u16>)
    requires
        valid_width(width as int),
    ensures
        codes@ == unpacked_codes(words@, width as nat, count as nat),
{
    let m = words.len();
    proof {
        lemma_modulus(width);
    }
    let modulus: u32 = 1u32 << width;
    let ghost total = packed_value(words@, 16);
    let ghost target = unpacked_codes(words@, width as nat, count as nat);
    let mut codes: Vec<u16> = Vec::new();
    let mut buffer: u32 = 0;
    let mut bits: u32 = 0;
    let mut c: usize = 0;
    let mut i: usize = 0;
    proof {
        assert(words@.take(0) =~= Seq::<u16>::empty());
        lemma_pow2_pos(0);
    }
    while i < count
        invariant
            m == words@.len(),
            valid_width(width as int),
            modulus == pow2(width as nat),
            0 < modulus,
            pow2(16) == 0x10000,
            total == packed_value(words@, 16),
            target == unpacked_codes(words@, width as nat, count as nat),
            c <= m,
            i <= count,
            codes@.len() == i,
            forall|j: int| 0 <= j < i ==> #[trigger] codes@[j] == target[j],
            bits < 32,
            buffer < pow2(bits as nat),
            16 * c - width * i <= bits,
            c < m ==> 16 * c == width * i + bits,
            buffer == packed_value(words@.take(c as int), 16) / pow2((width * i) as nat) as int,
        decreases count - i, m - c,
    {
        let ghost pos = (width * i) as nat;
        let ghost mc = packed_value(words@.take(c as int), 16);
        proof {
            lemma_pow2_pos(pos);
            lemma_pow2_pos(bits as nat);
            lemma_pow2_pos(width as nat);
            lemma_packed_value_bound(words@.take(c as int), 16);
        }
        if bits < width && c < m {
            let word: u32 = words[c] as u32;
            let ghost pb = pow2(bits as nat) as int;
            proof {
                lemma_pow2_adds(16, bits as nat);
                lemma_u32_pow2_no_overflow((16 + bits) as nat);
                assert(word * pb < 0x10000 * pb) by (nonlinear_arith)
                    requires
                        word < 0x10000,
                        pb > 0,
                ;
                lemma_u32_shl_is_mul(word, bits);
                assert(buffer + word * pb < 0x10000 * pb) by (nonlinear_arith)
                    requires
                        buffer < pb,
                        word < 0x10000,
                ;
                assert(words@.take(c + 1).drop_last() =~= words@.take(c as int));
                lemma_small_mod(word as nat, 0x10000);
                assert(16 * c == pos + bits);
                lemma_pow2_adds(pos, bits as nat);
                let pp = pow2(pos) as int;
                assert(packed_value(words@.take(c + 1), 16) == mc + word * pow2(16 * c as nat));
                assert(word * pow2(16 * c as nat) == (word * pb) * pp) by (nonlinear_arith)
                    requires
                        pow2(16 * c as nat) == pp * pb,
                ;
                lemma_hoist_over_denominator(mc, word * pb, pow2(pos));
            }
            buffer = buffer + (word << bits);
            bits = bits + WORD_BITS;
            c = c + 1;
        } else {
            let code: u16 = (buffer % modulus) as u16;
            proof {
                let pw = pow2(width as nat) as int;
                if c < m {
                    lemma_packed_value_split(words@, 16, c as nat);
                    assert(pos + width <= 16 * c);
                    lemma_packed_value_bound(words@.skip(c as int), 16);
                    lemma_high_part_invisible(
                        mc,
                        packed_value(words@.skip(c as int), 16),
                        16 * c as nat,
                        pos,
                        width as nat,
                    );
                } else {
                    assert(words@.take(c as int) =~= words@);
                }
                assert(code == target[i as int]);
                lemma_div_denominator(mc, pow2(pos) as int, pw);
                lemma_pow2_mul_step(width as nat, i as nat);
                assert((width * (i + 1)) as nat == width as nat * (i as nat + 1)) by (
                nonlinear_arith);
                assert(pos == width as nat * i as nat);
                if bits >= width {
                    lemma_pow2_adds(width as nat, (bits - width) as nat);
                    lemma_multiply_divide_lt(buffer as int, pw, pow2((bits - width) as nat) as int);
                } else {
                    lemma_pow2_strictly_increases(bits as nat, width as nat);
                    lemma2_to64();
                    assert(buffer as int / pw == 0) by (nonlinear_arith)
                        requires
                            0 <= buffer < pw,
                    ;
                }
                assert((width * (i + 1)) == width * i + width) by (nonlinear_arith);
            }
            codes.push(code);
            buffer = buffer / modulus;
            bits = if bits >= width {
                bits - width
            } else {
                0
            };
            i = i + 1;
        }
    }
    proof {
        assert(codes@ =~= target);
    }
    codes
}

/// Packs the low `width` bits of each code into 16-bit words, least
/// significant bit first and with no padding between codes; the last word is
/// zero-filled. `n` codes fill exactly `ceil(n * width / 16)` words. Fails
/// with `InvalidWidth` unless `1 <= width <= 16`.
pub fn pack_codes(codes: &[u16], width: u32) -> (packed: Result<Vec<u16>, CodecError>)
    ensures
        match packed {
            Ok(words) => valid_width(width as int) && words@ == packed_words(codes@, width as nat)
                && words@.len() == packed_len(codes@.len(), width as nat),
            Err(e) => !valid_width(width as int) && e == CodecError::InvalidWidth,
        },
{
    if width < 1 || width > WORD_BITS {
        return Err(CodecError::InvalidWidth);
    }
    Ok(pack_valid(codes, width))
}

/// Reads `count` codes of `width` bits back out of packed words. The count is
/// needed because the zero fill of the last word is indistinguishable from
/// zero codes; codes past the end of the words read as zero. Fails with
/// `InvalidWidth` unless `1 <= width <= 16`.
pub fn unpack_codes(words: &[u16], width: u32, count: usize) -> (unpacked: Result<
    Vec<u16>,
    CodecError,
>)
    ensures
        match unpacked {
            Ok(codes) => valid_width(width as int) && codes@ == unpacked_codes(
                words@,
                width as nat,
                count as nat,
            ),
            Err(e) => !valid_width(width as int) && e == CodecError::InvalidWidth,
        },
{
    if width < 1 || width > WORD_BITS {
        return Err(CodecError::InvalidWidth);
    }
    Ok(unpack_valid(words, width, count))
}

/// Packs ten-bit codes into 16-bit words; bits of a code above the tenth
/// are ignored.
pub fn pack_10_bit_values(samples: &[u16]) -> (packed: Vec<u16>)
    ensures
        packed@ == packed_words(samples@, TEN_BITS as nat),
        packed@.len() == packed_len(samples@.len(), TEN_BITS as nat),
{
    pack_valid(samples, TEN_BITS)
}

/// Reads `count` ten-bit codes back out of `packed`. The count is needed
/// because the zero fill of the last word is indistinguishable from zero
/// codes; codes past the end of the words read as zero.
pub fn unpack_10_bit_values(packed: &[u16], count: usize) -> (codes: Vec<u16>)
    ensures
        codes@ == unpacked_codes(packed@, TEN_BITS as nat, count as nat),
{
    unpack_valid(packed, TEN_BITS, count)
}

/// Unpacking what was packed, with the same width and the number of codes,
/// gives the codes back, for every width in `1..=16` and every sequence of
/// codes that fit in that width.
pub proof fn lemma_pack_round_trip(codes: Seq<u16>, width: nat)
    requires
        valid_width(width as int),
        forall|i: int| 0 <= i < codes.len() ==> (#[trigger] codes[i] as int) < pow2(width),
    ensures
        unpacked_codes(packed_words(codes, width), width, codes.len()) == codes,
{
    let n = codes.len();
    let v = packed_value(codes, width);
    let len = packed_len(n, width);
    lemma_packed_value_bound(codes, width);
    assert(width * n <= 16 * len) by (nonlinear_arith)
        requires
            len == (n * width + 15) / 16,
    ;
    if width * n < 16 * len {
        lemma_pow2_strictly_increases(width * n, 16 * len);
    }
    lemma_digits_value(v, 16, len);
    let back = unpacked_codes(packed_words(codes, width), width, n);
    assert forall|k: int| 0 <= k < n implies #[trigger] back[k] == codes[k] by {
        lemma_packed_digit(codes, width, k as nat);
        lemma_pow2_pos(width);
        lemma_small_mod(codes[k] as nat, pow2(width));
    }
    assert(back =~= codes);
}

/// Packing `n` codes of `width` bits yields exactly `ceil(n * width / 16)` words.
pub proof fn lemma_packed_length(codes: Seq<u16>, width: nat)
    ensures
        packed_words(codes, width).len() == (codes.len() * width + 15) / 16,
{
}

} // verus!
