use vstd::prelude::*;

verus! {

/// One affine piece: from index `start` on, the value `start_value` rising by
/// `rise / run` per sample. The slope is kept as an exact fraction.
#[derive(Clone, Copy, Debug, PartialEq, Eq, Structural)]
pub struct Segment {
    pub start: usize,
    pub start_value: i16,
    pub rise: i32,
    pub run: usize,
}

/// A reconstructed value, held exactly as `numerator / denominator`.
#[derive(Clone, Copy, Debug, PartialEq, Eq, Structural)]
pub struct Level {
    pub numerator: i128,
    pub denominator: usize,
}

/// First index at or after `end` whose sample differs from `s[start]`, or
/// `s.len()` if there is none.
pub open spec fn run_end(s: Seq<i16>, start: int, end: int) -> int
    decreases s.len() - end,
{
    if 0 <= end < s.len() && s[end] == s[start] {
        run_end(s, start, end + 1)
    } else {
        end
    }
}

/// The segments that `compress_segments` emits for `s[start..]`: each flat run
/// that is followed by a different sample gives one segment, with the slope
/// from the run's first sample to that sample; a run that reaches the end of
/// the samples gives none.
pub open spec fn segments_from(s: Seq<i16>, start: int) -> Seq<Segment>
    decreases s.len() - start,
{
    if start < 0 || start >= s.len() {
        Seq::empty()
    } else {
        let end = run_end(s, start, start);
        if end <= start || end >= s.len() {
            Seq::empty()
        } else {
            seq![
                Segment {
                    start: start as usize,
                    start_value: s[start],
                    rise: (s[end] - s[start]) as i32,
                    run: (end - start) as usize,
                },
            ] + segments_from(s, end)
        }
    }
}

/// Value of `seg`'s affine formula at index `p`, as (numerator, denominator).
pub open spec fn ramp_at(seg: Segment, p: int) -> (int, int) {
    (seg.start_value * seg.run + seg.rise * (p - seg.start), seg.run as int)
}

/// What `decompress_segments` leaves at index `p`: the formula of the last
/// segment in `segs` that starts at or before `p`, or `0 / 1` if none does.
pub open spec fn level_at(segs: Seq<Segment>, p: int) -> (int, int)
    decreases segs.len(),
{
    if segs.len() == 0 {
        (0, 1)
    } else if segs.last().start <= p {
        ramp_at(segs.last(), p)
    } else {
        level_at(segs.drop_last(), p)
    }
}

/// Splits `samples` into flat runs and describes each run that ends before
/// the last sample by its start, its value and the slope to the next sample.
/// A run that reaches the end is not encoded.
pub fn compress_segments(samples: &[i16]) -> (segments: Vec<Segment>)
    ensures
        segments@ == segments_from(samples@, 0),
{
    let n = samples.len();
    let mut segments: Vec<Segment> = Vec::new();
    let mut start: usize = 0;
    proof {
        assert(segments@ + segments_from(samples@, 0) =~= segments_from(samples@, 0));
    }
    while start < n
        invariant
            n == samples@.len(),
            start <= n,
            segments@ + segments_from(samples@, start as int) == segments_from(samples@, 0),
        decreases n - start,
    {
        let first = samples[start];
        let mut end: usize = start;
        while end < n && samples[end] == first
            invariant
                n == samples@.len(),
                start < n,
                first == samples@[start as int],
                start <= end <= n,
                run_end(samples@, start as int, start as int) == run_end(
                    samples@,
                    start as int,
                    end as int,
                ),
                forall|j: int| start <= j < end ==> #[trigger] samples@[j] == first,
            decreases n - end,
        {
            end = end + 1;
        }
        proof {
            assert(samples@[start as int] == first);
            assert(end > start);
        }
        if end >= n {
            proof {
                assert(segments_from(samples@, start as int) =~= Seq::<Segment>::empty());
                assert(segments@ + Seq::<Segment>::empty() =~= segments@);
            }
            return segments;
        }
        let seg = Segment {
            start: start,
            start_value: first,
            rise: samples[end] as i32 - first as i32,
            run: end - start,
        };
        segments.push(seg);
        proof {
            assert(segments@ + segments_from(samples@, end as int) =~= segments_from(samples@, 0));
        }
        start = end;
    }
    proof {
        assert(segments@ + Seq::<Segment>::empty() =~= segments@);
    }
    segments
}

/// The value of `seg`'s formula at index `p`, computed exactly.
fn ramp_level(seg: Segment, p: usize) -> (level: Level)
    requires
        seg.start <= p,
    ensures
        level.numerator == ramp_at(seg, p as int).0,
        level.denominator == ramp_at(seg, p as int).1,
{
    let a: i128 = seg.start_value as i128;
    let b: i128 = seg.run as i128;
    let c: i128 = seg.rise as i128;
    let d: i128 = (p - seg.start) as i128;
    assert(-0x8000_0000_0000_0000_0000 <= a * b <= 0x8000_0000_0000_0000_0000) by (nonlinear_arith)
        requires
            -0x8000 <= a <= 0x8000,
            0 <= b <= 0x1_0000_0000_0000_0000,
    ;
    assert(-0x8000_0000_0000_0000_0000_0000 <= c * d <= 0x8000_0000_0000_0000_0000_0000) by (
    nonlinear_arith)
        requires
            -0x8000_0000 <= c <= 0x8000_0000,
            0 <= d <= 0x1_0000_0000_0000_0000,
    ;
    Level { numerator: a * b + c * d, denominator: seg.run }
}

/// Rebuilds `total` values from segments. Each segment, in order, writes its
/// formula over every index from its start to the end; so each index ends up
/// with the formula of the last segment (in the given order) that starts at or
/// before it. Indices before every start hold `0 / 1`; segments that start at
/// or past `total` write nothing.
pub fn decompress_segments(segments: &[Segment], total: usize) -> (levels: Vec<Level>)
    ensures
        levels@.len() == total,
        forall|p: int|
            0 <= p < total ==> (#[trigger] levels@[p]).numerator == level_at(segments@, p).0
                && levels@[p].denominator == level_at(segments@, p).1,
{
    let mut levels: Vec<Level> = Vec::with_capacity(total);
    let mut p: usize = 0;
    while p < total
        invariant
            p <= total,
            levels@.len() == p,
            forall|q: int| 0 <= q < p ==> #[trigger] levels@[q] == (Level { numerator: 0, denominator: 1 }),
        decreases total - p,
    {
        levels.push(Level { numerator: 0, denominator: 1 });
        p = p + 1;
    }
    let mut k: usize = 0;
    while k < segments.len()
        invariant
            k <= segments@.len(),
            levels@.len() == total,
            forall|q: int|
                0 <= q < total ==> (#[trigger] levels@[q]).numerator == level_at(
                    segments@.take(k as int),
                    q,
                ).0 && levels@[q].denominator == level_at(segments@.take(k as int), q).1,
        decreases segments@.len() - k,
    {
        let seg = segments[k];
        let ghost before = levels@;
        proof {
            assert(segments@.take(k + 1).drop_last() =~= segments@.take(k as int));
            assert(segments@.take(k + 1).last() == seg);
        }
        let mut idx: usize = seg.start;
        while idx < total
            invariant
                seg.start <= idx,
                levels@.len() == total,
                before.len() == total,
                forall|q: int|
                    0 <= q < total && !(seg.start <= q < idx) ==> #[trigger] levels@[q]
                        == before[q],
                forall|q: int|
                    seg.start <= q < idx && q < total ==> (#[trigger] levels@[q]).numerator
                        == ramp_at(seg, q).0 && levels@[q].denominator == ramp_at(seg, q).1,
            decreases total - idx,
        {
            let level = ramp_level(seg, idx);
            levels[idx] = level;
            idx = idx + 1;
        }
        k = k + 1;
    }
    proof {
        assert(segments@.take(segments@.len() as int) =~= segments@);
    }
    levels
}

} // verus!
