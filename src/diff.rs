use vstd::prelude::*;

verus! {

/// Differences reported before the report is cut short; the one that goes
/// past this limit is still reported.
pub const DIFF_LIMIT: usize = 20;

/// One byte position where two buffers differ.
#[derive(Clone, Copy, Debug, PartialEq, Eq, Structural)]
pub struct ByteMismatch {
    pub offset: usize,
    pub original: u8,
    pub decompressed: u8,
}

/// Which buffer, if either, runs on past the common length.
#[derive(Clone, Copy, Debug, PartialEq, Eq, Structural)]
pub enum ExtraBytes {
    Neither,
    Original,
    Decompressed,
}

/// The comparison of an original buffer with its decompressed copy.
#[derive(Clone, Debug)]
pub struct ByteDiff {
    /// The first differing positions within the common length, in order.
    pub mismatches: Vec<ByteMismatch>,
    /// Whether the list stopped because it went past `DIFF_LIMIT`.
    pub limit_reached: bool,
    /// The common length: where extra bytes, if any, start.
    pub common_len: usize,
    pub extra: ExtraBytes,
}

/// Offsets below `n` where `a` and `b` differ, in increasing order.
pub open spec fn mismatch_offsets(a: Seq<u8>, b: Seq<u8>, n: int) -> Seq<int>
    decreases n,
{
    if n <= 0 {
        Seq::empty()
    } else if a[n - 1] != b[n - 1] {
        mismatch_offsets(a, b, n - 1).push(n - 1)
    } else {
        mismatch_offsets(a, b, n - 1)
    }
}

/// The offsets of `mismatch_offsets(a, b, j)` start those of
/// `mismatch_offsets(a, b, k)` for `j <= k`.
proof fn lemma_offsets_prefix(a: Seq<u8>, b: Seq<u8>, j: int, k: int)
    requires
        0 <= j <= k,
    ensures
        mismatch_offsets(a, b, j).len() <= mismatch_offsets(a, b, k).len(),
        mismatch_offsets(a, b, k).take(mismatch_offsets(a, b, j).len() as int)
            == mismatch_offsets(a, b, j),
    decreases k - j,
{
    if j < k {
        lemma_offsets_prefix(a, b, j, k - 1);
        let s = mismatch_offsets(a, b, k - 1);
        let t = mismatch_offsets(a, b, k);
        let m = mismatch_offsets(a, b, j).len() as int;
        if t != s {
            assert(t.take(m) =~= s.take(m));
        }
    } else {
        assert(mismatch_offsets(a, b, k).take(mismatch_offsets(a, b, k).len() as int)
            =~= mismatch_offsets(a, b, k));
    }
}

/// Every offset of `mismatch_offsets(a, b, n)` is below `n`.
proof fn lemma_offsets_below(a: Seq<u8>, b: Seq<u8>, n: int)
    ensures
        forall|i: int|
            0 <= i < mismatch_offsets(a, b, n).len() ==> 0 <= #[trigger] mismatch_offsets(
                a,
                b,
                n,
            )[i] < n,
    decreases n,
{
    if n > 0 {
        lemma_offsets_below(a, b, n - 1);
        let s = mismatch_offsets(a, b, n - 1);
        let t = mismatch_offsets(a, b, n);
        assert forall|i: int| 0 <= i < t.len() implies 0 <= #[trigger] t[i] < n by {
            if i < s.len() {
                assert(t[i] == s[i]);
            }
        }
    }
}

/// Compares `original` with `decompressed` byte by byte over their common
/// length, listing differences until one goes past `DIFF_LIMIT`, and notes
/// which buffer, if either, is longer.
pub fn byte_differences(original: &[u8], decompressed: &[u8]) -> (diff: ByteDiff)
    ensures
        diff.common_len as int == if original@.len() <= decompressed@.len() {
            original@.len() as int
        } else {
            decompressed@.len() as int
        },
        ({
            let all = mismatch_offsets(original@, decompressed@, diff.common_len as int);
            &&& diff.limit_reached == (all.len() > DIFF_LIMIT)
            &&& diff.mismatches@.len() == if all.len() > DIFF_LIMIT {
                DIFF_LIMIT as int + 1
            } else {
                all.len() as int
            }
            &&& forall|i: int|
                0 <= i < diff.mismatches@.len() ==> (#[trigger] diff.mismatches@[i]).offset
                    == all[i] && diff.mismatches@[i].original == original@[all[i]]
                    && diff.mismatches@[i].decompressed == decompressed@[all[i]]
        }),
        diff.extra == if original@.len() > decompressed@.len() {
            ExtraBytes::Original
        } else if decompressed@.len() > original@.len() {
            ExtraBytes::Decompressed
        } else {
            ExtraBytes::Neither
        },
{
    let common_len: usize = if original.len() <= decompressed.len() {
        original.len()
    } else {
        decompressed.len()
    };
    let ghost a = original@;
    let ghost b = decompressed@;
    let mut mismatches: Vec<ByteMismatch> = Vec::new();
    let mut limit_reached = false;
    let mut i: usize = 0;
    while i < common_len && !limit_reached
        invariant
            a == original@,
            b == decompressed@,
            common_len <= a.len(),
            common_len <= b.len(),
            i <= common_len,
            mismatches@.len() == mismatch_offsets(a, b, i as int).len(),
            mismatches@.len() <= DIFF_LIMIT + 1,
            limit_reached == (mismatches@.len() > DIFF_LIMIT),
            forall|j: int|
                0 <= j < mismatches@.len() ==> (#[trigger] mismatches@[j]).offset == mismatch_offsets(
                    a,
                    b,
                    i as int,
                )[j] && mismatches@[j].original == a[mismatches@[j].offset as int]
                    && mismatches@[j].decompressed == b[mismatches@[j].offset as int],
        decreases common_len - i,
    {
        if original[i] != decompressed[i] {
            mismatches.push(
                ByteMismatch { offset: i, original: original[i], decompressed: decompressed[i] },
            );
            limit_reached = mismatches.len() > DIFF_LIMIT;
        }
        i = i + 1;
    }
    proof {
        lemma_offsets_prefix(a, b, i as int, common_len as int);
        lemma_offsets_below(a, b, common_len as int);
        let all = mismatch_offsets(a, b, common_len as int);
        let got = mismatch_offsets(a, b, i as int);
        assert forall|j: int| 0 <= j < mismatches@.len() implies (
        #[trigger] mismatches@[j]).offset == all[j] by {
            assert(all.take(got.len() as int)[j] == all[j]);
        }
    }
    ByteDiff { mismatches, limit_reached, common_len, extra: if original.len() > decompressed.len() {
        ExtraBytes::Original
    } else if decompressed.len() > original.len() {
        ExtraBytes::Decompressed
    } else {
        ExtraBytes::Neither
    } }
}

} // verus!
