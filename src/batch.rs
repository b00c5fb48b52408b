use vstd::prelude::*;

verus! {

/// Sum of the first components (raw sizes) of `sizes`.
pub open spec fn raw_total(sizes: Seq<(u64, u64)>) -> int
    decreases sizes.len(),
{
    if sizes.len() == 0 {
        0
    } else {
        raw_total(sizes.drop_last()) + sizes.last().0
    }
}

/// Sum of the second components (compressed sizes) of `sizes`.
pub open spec fn compressed_total(sizes: Seq<(u64, u64)>) -> int
    decreases sizes.len(),
{
    if sizes.len() == 0 {
        0
    } else {
        compressed_total(sizes.drop_last()) + sizes.last().1
    }
}

pub open spec fn capped(x: int) -> int {
    if x > u64::MAX {
        u64::MAX as int
    } else {
        x
    }
}

proof fn lemma_totals_grow(sizes: Seq<(u64, u64)>)
    ensures
        raw_total(sizes) >= 0,
        compressed_total(sizes) >= 0,
    decreases sizes.len(),
{
    if sizes.len() > 0 {
        lemma_totals_grow(sizes.drop_last());
    }
}

/// Adds up `(raw size, compressed size)` pairs of a batch; each total sticks
/// at `u64::MAX` rather than wrapping.
pub fn total_sizes(sizes: &[(u64, u64)]) -> (totals: (u64, u64))
    ensures
        totals.0 == capped(raw_total(sizes@)),
        totals.1 == capped(compressed_total(sizes@)),
{
    let mut raw: u64 = 0;
    let mut compressed: u64 = 0;
    let mut i: usize = 0;
    proof {
        assert(sizes@.take(0) =~= Seq::<(u64, u64)>::empty());
    }
    while i < sizes.len()
        invariant
            i <= sizes@.len(),
            raw == capped(raw_total(sizes@.take(i as int))),
            compressed == capped(compressed_total(sizes@.take(i as int))),
        decreases sizes@.len() - i,
    {
        let (r, c) = sizes[i];
        proof {
            assert(sizes@.take(i + 1).drop_last() =~= sizes@.take(i as int));
            lemma_totals_grow(sizes@.take(i as int));
        }
        raw = raw.saturating_add(r);
        compressed = compressed.saturating_add(c);
        i = i + 1;
    }
    proof {
        assert(sizes@.take(sizes@.len() as int) =~= sizes@);
    }
    (raw, compressed)
}

} // verus!
