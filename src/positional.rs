use vstd::arithmetic::div_mod::{
    lemma_div_multiples_vanish_fancy, lemma_fundamental_div_mod, lemma_hoist_over_denominator,
    lemma_mod_multiples_vanish, lemma_multiply_divide_lt, lemma_small_mod,
};
use vstd::arithmetic::power2::{lemma2_to64, lemma_pow2_adds, lemma_pow2_pos, pow2};
use vstd::prelude::*;

verus! {

/// The number that `s` spells as base-`2^width` digits, least significant
/// first. Each element contributes its low `width` bits only.
pub open spec fn packed_value(s: Seq<u16>, width: nat) -> int
    decreases s.len(),
{
    if s.len() == 0 {
        0
    } else {
        packed_value(s.drop_last(), width) + (s.last() as int % pow2(width) as int) * pow2(
            width * (s.len() - 1) as nat,
        ) as int
    }
}

/// The lowest `len` base-`2^width` digits of `v`, least significant first.
pub open spec fn digits_of(v: int, width: nat, len: nat) -> Seq<u16> {
    Seq::new(len, |k: int| ((v / pow2(width * k as nat) as int) % pow2(width) as int) as u16)
}

/// `2^(b * (k + 1)) == 2^(b * k) * 2^b`.
pub proof fn lemma_pow2_mul_step(b: nat, k: nat)
    ensures
        pow2(b * (k + 1)) == pow2(b * k) * pow2(b),
{
    assert(b * (k + 1) == b * k + b) by (nonlinear_arith);
    lemma_pow2_adds(b * k, b);
}

/// `0 <= packed_value(s, b) < 2^(b * |s|)`.
pub proof fn lemma_packed_value_bound(s: Seq<u16>, b: nat)
    ensures
        0 <= packed_value(s, b) < pow2(b * s.len()),
    decreases s.len(),
{
    lemma_pow2_pos(b * s.len());
    if s.len() > 0 {
        let n = (s.len() - 1) as nat;
        lemma_packed_value_bound(s.drop_last(), b);
        lemma_pow2_pos(b);
        lemma_pow2_pos(b * n);
        lemma_pow2_mul_step(b, n);
        let a = packed_value(s.drop_last(), b);
        let x = s.last() as int % pow2(b) as int;
        let p = pow2(b * n) as int;
        let q = pow2(b) as int;
        assert(a + x * p < q * p) by (nonlinear_arith)
            requires
                0 <= a < p,
                0 <= x < q,
        ;
    }
}

/// Bits above position `m` leave a `b`-bit digit at position `j` untouched
/// when `j + b <= m`.
pub proof fn lemma_high_part_invisible(a: int, x: int, m: nat, j: nat, b: nat)
    requires
        0 <= a < pow2(m),
        0 <= x,
        j + b <= m,
    ensures
        ((a + pow2(m) * x) / pow2(j) as int) % pow2(b) as int == (a / pow2(j) as int) % pow2(
            b,
        ) as int,
{
    let r = (m - j - b) as nat;
    lemma_pow2_adds(j, (m - j) as nat);
    lemma_pow2_adds(b, r);
    lemma_pow2_pos(j);
    lemma_pow2_pos(b);
    let pj = pow2(j) as int;
    let pb = pow2(b) as int;
    let pr = pow2(r) as int;
    assert(pow2(m) * x == (pb * pr * x) * pj) by (nonlinear_arith)
        requires
            pow2(m) == pj * pow2((m - j) as nat),
            pow2((m - j) as nat) == pb * pr,
    ;
    lemma_hoist_over_denominator(a, pb * pr * x, pow2(j));
    assert(pb * pr * x == pb * (pr * x)) by (nonlinear_arith);
    lemma_mod_multiples_vanish(pr * x, a / pj, pb);
}

/// Digit `k` of `packed_value(s, b)` is the low `b` bits of `s[k]`.
pub proof fn lemma_packed_digit(s: Seq<u16>, b: nat, k: nat)
    requires
        k < s.len(),
    ensures
        (packed_value(s, b) / pow2(b * k) as int) % pow2(b) as int == s[k as int] as int % pow2(
            b,
        ) as int,
    decreases s.len(),
{
    let n = (s.len() - 1) as nat;
    let t = s.drop_last();
    let m = b * n;
    let a = packed_value(t, b);
    let x = s.last() as int % pow2(b) as int;
    lemma_packed_value_bound(t, b);
    lemma_pow2_pos(b);
    assert(x * pow2(m) == pow2(m) * x) by (nonlinear_arith);
    if k < n {
        assert(b * k + b <= m) by (nonlinear_arith)
            requires
                k < n,
                m == b * n,
        ;
        lemma_high_part_invisible(a, x, m, b * k, b);
        lemma_packed_digit(t, b, k);
    } else {
        lemma_pow2_pos(m);
        lemma_div_multiples_vanish_fancy(x, a, pow2(m) as int);
        lemma_small_mod(x as nat, pow2(b));
    }
}

/// `packed_value` of a sequence is its first `c` digits plus `2^(b * c)` times
/// the rest.
pub proof fn lemma_packed_value_split(s: Seq<u16>, b: nat, c: nat)
    requires
        c <= s.len(),
    ensures
        packed_value(s, b) == packed_value(s.take(c as int), b) + pow2(b * c) * packed_value(
            s.skip(c as int),
            b,
        ),
    decreases s.len(),
{
    if c == s.len() {
        assert(s.take(c as int) =~= s);
        assert(packed_value(s.skip(c as int), b) == 0);
    } else {
        let n = (s.len() - 1) as nat;
        let t = s.drop_last();
        lemma_packed_value_split(t, b, c);
        assert(t.take(c as int) =~= s.take(c as int));
        let u = s.skip(c as int);
        assert(u.drop_last() =~= t.skip(c as int));
        assert(u.last() == s.last());
        let x = s.last() as int % pow2(b) as int;
        let pc = pow2(b * c) as int;
        let pu = pow2(b * (n - c) as nat) as int;
        assert(b * c + b * (n - c) as nat == b * n) by (nonlinear_arith)
            requires
                c <= n,
        ;
        lemma_pow2_adds(b * c, b * (n - c) as nat);
        let v = packed_value(t.skip(c as int), b);
        assert(pc * (v + x * pu) == pc * v + x * (pc * pu)) by (nonlinear_arith);
    }
}

/// A number below `2^(b * len)` is the value of its own `len` digits.
pub proof fn lemma_digits_value(v: int, b: nat, len: nat)
    requires
        1 <= b <= 16,
        0 <= v < pow2(b * len),
    ensures
        packed_value(digits_of(v, b, len), b) == v,
    decreases len,
{
    let d = digits_of(v, b, len);
    if len == 0 {
        lemma2_to64();
    } else {
        let n = (len - 1) as nat;
        let m = b * n;
        lemma_pow2_pos(m);
        lemma_pow2_pos(b);
        let pm = pow2(m) as int;
        let hi = v / pm;
        let lo = v % pm;
        lemma_fundamental_div_mod(v, pm);
        lemma_pow2_mul_step(b, n);
        lemma_multiply_divide_lt(v, pm, pow2(b) as int);
        assert(hi >= 0) by (nonlinear_arith)
            requires
                v >= 0,
                pm > 0,
                hi == v / pm,
        ;
        assert(v == lo + pm * hi);
        assert forall|k: int| 0 <= k < n implies #[trigger] d.drop_last()[k] == digits_of(
            lo,
            b,
            n,
        )[k] by {
            assert(b * (k as nat) + b <= m) by (nonlinear_arith)
                requires
                    0 <= k < n,
                    m == b * n,
            ;
            lemma_high_part_invisible(lo, hi, m, b * (k as nat), b);
        }
        assert(d.drop_last() =~= digits_of(lo, b, n));
        lemma_digits_value(lo, b, n);
        lemma_small_mod(hi as nat, pow2(b));
        lemma2_to64();
        assert(pow2(b) <= pow2(16)) by {
            if b < 16 {
                vstd::arithmetic::power2::lemma_pow2_strictly_increases(b, 16);
            }
        }
        assert(d.last() as int == hi);
        assert(hi * pm == pm * hi) by (nonlinear_arith);
    }
}

} // verus!
