use crate::error::CodecError;
use vstd::prelude::*;

verus! {

/// Longest run that a single `(count, value)` token can carry.
pub const MAX_RUN: u8 = 255;

/// `n` copies of the byte `v`.
pub open spec fn repeat_byte(v: u8, n: nat) -> Seq<u8> {
    Seq::new(n, |_j: int| v)
}

/// Length of the run of bytes equal to `s[0]` that starts `s`.
pub open spec fn lead_run(s: Seq<u8>) -> nat
    decreases s.len(),
{
    if s.len() <= 1 {
        s.len()
    } else if s[1] == s[0] {
        1 + lead_run(s.drop_first())
    } else {
        1
    }
}

/// Length of the first token of the encoding of a non-empty `s`.
pub open spec fn first_token_len(s: Seq<u8>) -> nat {
    if lead_run(s) <= MAX_RUN as nat {
        lead_run(s)
    } else {
        MAX_RUN as nat
    }
}

/// The token stream that encodes `s`: runs are taken greedily from the left,
/// each token covering at most 255 equal bytes.
pub open spec fn rle_tokens(s: Seq<u8>) -> Seq<u8>
    decreases s.len(),
{
    if s.len() == 0 {
        Seq::empty()
    } else {
        let r = first_token_len(s);
        if 1 <= r <= s.len() {
            seq![r as u8, s[0]] + rle_tokens(s.skip(r as int))
        } else {
            Seq::empty()
        }
    }
}

/// The bytes that a token stream stands for; a trailing lone count is ignored.
pub open spec fn rle_expand(t: Seq<u8>) -> Seq<u8>
    decreases t.len(),
{
    if t.len() < 2 {
        Seq::empty()
    } else {
        repeat_byte(t[1], t[0] as nat) + rle_expand(t.skip(2))
    }
}

/// Facts that pin `lead_run` down: the first `lead_run(s)` bytes equal `s[0]`,
/// and the byte after them, if any, differs.
pub proof fn lemma_lead_run(s: Seq<u8>)
    requires
        s.len() > 0,
    ensures
        1 <= lead_run(s) <= s.len(),
        forall|j: int| 0 <= j < lead_run(s) ==> #[trigger] s[j] == s[0],
        lead_run(s) < s.len() ==> s[lead_run(s) as int] != s[0],
    decreases s.len(),
{
    if s.len() > 1 && s[1] == s[0] {
        let t = s.drop_first();
        lemma_lead_run(t);
        assert forall|j: int| 0 <= j < lead_run(s) implies #[trigger] s[j] == s[0] by {
            if j > 0 {
                assert(s[j] == t[j - 1]);
            }
        }
    }
}

/// A prefix of equal bytes that ends at the end of `s` or at a different byte
/// is exactly the leading run.
pub proof fn lemma_lead_run_exact(s: Seq<u8>, k: nat)
    requires
        1 <= k <= s.len(),
        forall|j: int| 0 <= j < k ==> #[trigger] s[j] == s[0],
        k < s.len() ==> s[k as int] != s[0],
    ensures
        lead_run(s) == k,
    decreases s.len(),
{
    if s.len() > 1 && k > 1 {
        let t = s.drop_first();
        assert(t[0] == s[0]);
        lemma_lead_run_exact(t, (k - 1) as nat);
    }
}

/// Any prefix of equal bytes lies within the leading run.
pub proof fn lemma_lead_run_at_least(s: Seq<u8>, k: nat)
    requires
        1 <= k <= s.len(),
        forall|j: int| 0 <= j < k ==> #[trigger] s[j] == s[0],
    ensures
        lead_run(s) >= k,
    decreases s.len(),
{
    if s.len() > 1 && k > 1 {
        let t = s.drop_first();
        assert(t[0] == s[0]);
        lemma_lead_run_at_least(t, (k - 1) as nat);
    }
}

/// The tokens that encode a run of `n` copies of `v` on its own: full tokens of
/// 255, then one token for what is left.
pub open spec fn run_tokens(v: u8, n: nat) -> Seq<u8>
    decreases n,
{
    if n == 0 {
        Seq::empty()
    } else if n <= MAX_RUN as nat {
        seq![n as u8, v]
    } else {
        seq![MAX_RUN, v] + run_tokens(v, (n - MAX_RUN) as nat)
    }
}

/// Sum of the counts of a token stream.
pub open spec fn count_sum(t: Seq<u8>) -> nat
    decreases t.len(),
{
    if t.len() < 2 {
        0
    } else {
        t[0] as nat + count_sum(t.skip(2))
    }
}

/// Expanding a concatenation of whole tokens expands each part.
pub proof fn lemma_expand_concat(a: Seq<u8>, b: Seq<u8>)
    requires
        a.len() % 2 == 0,
    ensures
        rle_expand(a + b) == rle_expand(a) + rle_expand(b),
    decreases a.len(),
{
    if a.len() == 0 {
        assert(a + b =~= b);
        assert(rle_expand(a) + rle_expand(b) =~= rle_expand(b));
    } else {
        assert((a + b).skip(2) =~= a.skip(2) + b);
        lemma_expand_concat(a.skip(2), b);
        assert(rle_expand(a + b) =~= rle_expand(a) + rle_expand(b));
    }
}

/// One token expands to its run.
pub proof fn lemma_expand_token(c: u8, v: u8)
    ensures
        rle_expand(seq![c, v]) == repeat_byte(v, c as nat),
{
    let t = seq![c, v];
    assert(t.skip(2) =~= Seq::<u8>::empty());
    assert(rle_expand(t.skip(2)) == Seq::<u8>::empty());
    assert(rle_expand(t) == repeat_byte(v, c as nat) + rle_expand(t.skip(2)));
    assert(repeat_byte(v, c as nat) + Seq::<u8>::empty() =~= repeat_byte(v, c as nat));
}

/// Decoding undoes encoding.
pub proof fn lemma_expand_tokens(s: Seq<u8>)
    ensures
        rle_expand(rle_tokens(s)) == s,
    decreases s.len(),
{
    if s.len() > 0 {
        lemma_lead_run(s);
        let r = first_token_len(s);
        let t = rle_tokens(s.skip(r as int));
        lemma_expand_tokens(s.skip(r as int));
        let x = seq![r as u8, s[0]] + t;
        assert(x.skip(2) =~= t);
        assert(x[0] as nat == r && x[1] == s[0]);
        assert(rle_expand(x) == repeat_byte(s[0], r) + rle_expand(t));
        assert(repeat_byte(s[0], r) + s.skip(r as int) =~= s);
    }
}

/// A run of `n` copies of `v`, followed by nothing or by a different byte, is
/// encoded as `run_tokens(v, n)` followed by the encoding of what comes after.
pub proof fn lemma_tokens_of_run(v: u8, n: nat, q: Seq<u8>)
    requires
        q.len() == 0 || q[0] != v,
    ensures
        rle_tokens(repeat_byte(v, n) + q) == run_tokens(v, n) + rle_tokens(q),
    decreases n,
{
    let s = repeat_byte(v, n) + q;
    if n == 0 {
        assert(s =~= q);
        assert(run_tokens(v, n) + rle_tokens(q) =~= rle_tokens(q));
    } else {
        assert(s[0] == v);
        lemma_lead_run_exact(s, n);
        let r = first_token_len(s);
        assert(s.skip(r as int) =~= repeat_byte(v, (n - r) as nat) + q);
        lemma_tokens_of_run(v, (n - r) as nat, q);
        if n <= MAX_RUN as nat {
            assert(repeat_byte(v, 0) + q =~= q);
            assert(run_tokens(v, n) + rle_tokens(q) =~= seq![n as u8, v] + rle_tokens(q));
        } else {
            assert(run_tokens(v, n) + rle_tokens(q) =~= seq![MAX_RUN, v] + (run_tokens(
                v,
                (n - MAX_RUN) as nat,
            ) + rle_tokens(q)));
        }
    }
}

/// Where the last byte of `p` differs from the first byte of `s`, the two are
/// encoded independently.
pub proof fn lemma_tokens_concat(p: Seq<u8>, s: Seq<u8>)
    requires
        p.len() == 0 || s.len() == 0 || p.last() != s[0],
    ensures
        rle_tokens(p + s) == rle_tokens(p) + rle_tokens(s),
    decreases p.len(),
{
    let x = p + s;
    if p.len() == 0 {
        assert(x =~= s);
        assert(rle_tokens(p) + rle_tokens(s) =~= rle_tokens(s));
    } else {
        lemma_lead_run(p);
        let l = lead_run(p);
        assert(x[0] == p[0]);
        assert forall|j: int| 0 <= j < l implies #[trigger] x[j] == x[0] by {
            assert(x[j] == p[j]);
        }
        if l < p.len() {
            assert(x[l as int] == p[l as int]);
        } else if s.len() > 0 {
            assert(p.last() == p[l - 1]);
            assert(x[l as int] == s[0]);
        }
        lemma_lead_run_exact(x, l);
        let r = first_token_len(p);
        assert(first_token_len(x) == r);
        assert(x.skip(r as int) =~= p.skip(r as int) + s);
        if r < p.len() {
            assert(p.skip(r as int).last() == p.last());
        }
        lemma_tokens_concat(p.skip(r as int), s);
        assert(rle_tokens(x) =~= rle_tokens(p) + rle_tokens(s));
    }
}

/// Shape of the tokens of one run: `ceil(n / 255)` tokens (two bytes each),
/// each carrying `v` and a count in `1..=255`, the counts summing to `n`.
pub proof fn lemma_run_tokens_shape(v: u8, n: nat)
    ensures
        run_tokens(v, n).len() == 2 * ((n + 254) / 255),
        forall|j: int|
            0 <= j < run_tokens(v, n).len() ==> if j % 2 == 1 {
                #[trigger] run_tokens(v, n)[j] == v
            } else {
                1 <= run_tokens(v, n)[j] <= MAX_RUN
            },
        count_sum(run_tokens(v, n)) == n,
    decreases n,
{
    let t = run_tokens(v, n);
    if n == 0 {
    } else if n <= MAX_RUN as nat {
        assert(t =~= seq![n as u8, v]);
        assert(t.skip(2) =~= Seq::<u8>::empty());
        assert(count_sum(t) == t[0] as nat + count_sum(t.skip(2)));
        assert((n + 254) / 255 == 1);

    } else {
        let m = (n - MAX_RUN) as nat;
        let u = run_tokens(v, m);
        lemma_run_tokens_shape(v, m);
        assert(t =~= seq![MAX_RUN, v] + u);
        assert(t.skip(2) =~= u);
        assert(count_sum(t) == t[0] as nat + count_sum(t.skip(2)));
        assert((n + 254) / 255 == (m + 254) / 255 + 1);
        assert forall|j: int| 0 <= j < t.len() implies if j % 2 == 1 {
            #[trigger] t[j] == v
        } else {
            1 <= t[j] <= MAX_RUN
        } by {
            if j >= 2 {
                assert(t[j] == u[j - 2]);
            }
        }
    }
}

/// Encoding then decoding gives back the input, for every byte sequence.
pub proof fn lemma_rle_round_trip(x: Seq<u8>)
    ensures
        rle_expand(rle_tokens(x)) == x,
{
    lemma_expand_tokens(x);
}

/// A maximal run of `n > 255` copies of `v` inside `p ++ run ++ q` is encoded
/// as `ceil(n / 255)` consecutive tokens, each with value `v` and the counts
/// summing to `n`, between the encodings of `p` and of `q`.
pub proof fn lemma_long_run_split(p: Seq<u8>, v: u8, n: nat, q: Seq<u8>)
    requires
        n > MAX_RUN as nat,
        p.len() == 0 || p.last() != v,
        q.len() == 0 || q[0] != v,
    ensures
        rle_tokens(p + repeat_byte(v, n) + q) == rle_tokens(p) + run_tokens(v, n) + rle_tokens(
            q,
        ),
        run_tokens(v, n).len() == 2 * ((n + 254) / 255),
        forall|j: int|
            0 <= j < run_tokens(v, n).len() ==> if j % 2 == 1 {
                #[trigger] run_tokens(v, n)[j] == v
            } else {
                1 <= run_tokens(v, n)[j] <= MAX_RUN
            },
        count_sum(run_tokens(v, n)) == n,
{
    let s = repeat_byte(v, n) + q;
    assert(s[0] == v);
    lemma_tokens_concat(p, s);
    assert(p + repeat_byte(v, n) + q =~= p + s);
    lemma_tokens_of_run(v, n, q);
    assert(rle_tokens(p) + (run_tokens(v, n) + rle_tokens(q)) =~= rle_tokens(p) + run_tokens(
        v,
        n,
    ) + rle_tokens(q));
    lemma_run_tokens_shape(v, n);
}

/// Every token of an encoding is whole and has a count of at least 1.
pub proof fn lemma_tokens_well_formed(s: Seq<u8>)
    ensures
        rle_tokens(s).len() % 2 == 0,
        forall|j: int|
            0 <= j < rle_tokens(s).len() && j % 2 == 0 ==> 1 <= #[trigger] rle_tokens(s)[j],
    decreases s.len(),
{
    if s.len() > 0 {
        lemma_lead_run(s);
        let r = first_token_len(s);
        let rest = rle_tokens(s.skip(r as int));
        lemma_tokens_well_formed(s.skip(r as int));
        let t = rle_tokens(s);
        assert(t == seq![r as u8, s[0]] + rest);
        assert forall|j: int| 0 <= j < t.len() && j % 2 == 0 implies 1 <= #[trigger] t[j] by {
            if j >= 2 {
                assert(t[j] == rest[j - 2]);
            }
        }
    }
}

/// Run-length encodes `input` into `(count, value)` byte pairs.
pub fn run_length_encode(input: Vec<u8>) -> (encoded: Vec<u8>)
    ensures
        encoded@ == rle_tokens(input@),
        encoded@.len() % 2 == 0,
        forall|j: int| 0 <= j < encoded@.len() && j % 2 == 0 ==> 1 <= #[trigger] encoded@[j],
{
    let mut encoded: Vec<u8> = Vec::new();
    let n = input.len();
    let mut i: usize = 0;
    proof {
        assert(input@.skip(0) =~= input@);
        assert(encoded@ + rle_tokens(input@) =~= rle_tokens(input@));
    }
    while i < n
        invariant
            n == input@.len(),
            i <= n,
            encoded@ + rle_tokens(input@.skip(i as int)) == rle_tokens(input@),
        decreases n - i,
    {
        let value = input[i];
        let mut count: u8 = 1;
        while count < MAX_RUN && i + (count as usize) < n && input[i + count as usize] == value
            invariant
                n == input@.len(),
                i < n,
                value == input@[i as int],
                1 <= count <= MAX_RUN,
                i + count <= n,
                forall|j: int| i <= j < i + count ==> input@[j] == value,
            decreases MAX_RUN - count,
        {
            count = count + 1;
        }
        let ghost rest = input@.skip(i as int);
        proof {
            assert forall|j: int| 0 <= j < count implies #[trigger] rest[j] == rest[0] by {}
            lemma_lead_run(rest);
            if count < MAX_RUN {
                lemma_lead_run_exact(rest, count as nat);
            } else {
                lemma_lead_run_at_least(rest, count as nat);
            }
            assert(first_token_len(rest) == count);
            assert(rest.skip(count as int) =~= input@.skip(i + count));
            assert(rle_tokens(rest) == seq![count, value] + rle_tokens(input@.skip(i + count)));
        }
        encoded.push(count);
        encoded.push(value);
        i = i + count as usize;
        proof {
            assert(encoded@ + rle_tokens(input@.skip(i as int)) =~= rle_tokens(input@));
        }
    }
    proof {
        assert(input@.skip(n as int) =~= Seq::<u8>::empty());
        assert(encoded@ + Seq::<u8>::empty() =~= encoded@);
        lemma_tokens_well_formed(input@);
    }
    encoded
}

/// Expands a stream of `(count, value)` byte pairs. An odd-length stream has a
/// count with no value and is rejected.
pub fn run_length_decode(input: Vec<u8>) -> (decoded: Result<Vec<u8>, CodecError>)
    ensures
        match decoded {
            Ok(d) => input@.len() % 2 == 0 && d@ == rle_expand(input@),
            Err(e) => input@.len() % 2 == 1 && e == CodecError::MalformedStream,
        },
{
    let n = input.len();
    if n % 2 == 1 {
        return Err(CodecError::MalformedStream);
    }
    let mut decoded: Vec<u8> = Vec::new();
    let mut i: usize = 0;
    proof {
        assert(input@.take(0) =~= Seq::<u8>::empty());
    }
    while i < n
        invariant
            n == input@.len(),
            n % 2 == 0,
            i % 2 == 0,
            i <= n,
            decoded@ == rle_expand(input@.take(i as int)),
        decreases n - i,
    {
        let count = input[i];
        let value = input[i + 1];
        let ghost before = decoded@;
        let mut k: u8 = 0;
        while k < count
            invariant
                decoded@ == before + repeat_byte(value, k as nat),
                k <= count,
            decreases count - k,
        {
            decoded.push(value);
            k = k + 1;
            proof {
                assert(decoded@ =~= before + repeat_byte(value, k as nat));
            }
        }
        proof {
            assert(input@.take(i + 2) =~= input@.take(i as int) + seq![count, value]);
            lemma_expand_concat(input@.take(i as int), seq![count, value]);
            lemma_expand_token(count, value);
        }
        i = i + 2;
    }
    proof {
        assert(input@.take(n as int) =~= input@);
    }
    Ok(decoded)
}

} // verus!
