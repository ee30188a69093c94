//! Hard thresholding of transform coefficients.

use vstd::prelude::*;

use crate::fixed::all_bounded;

verus! {

/// A coefficient survives the threshold when its magnitude is at least `t`.
pub open spec fn kept_spec(v: int, t: int) -> bool {
    !(-t < v && v < t)
}

/// Value of one coefficient after thresholding.
pub open spec fn thr_spec(v: int, t: int) -> int {
    if kept_spec(v, t) {
        v
    } else {
        0
    }
}

/// A row after thresholding.
pub open spec fn row_thr_spec(s: Seq<i64>, t: int) -> Seq<i64> {
    Seq::new(s.len(), |i: int| thr_spec(s[i] as int, t) as i64)
}

/// Number of retained coefficients in a row.
pub open spec fn row_retained_spec(s: Seq<i64>, t: int) -> int
    decreases s.len(),
{
    if s.len() == 0 {
        0
    } else {
        row_retained_spec(s.drop_last(), t) + if kept_spec(s.last() as int, t) {
            1int
        } else {
            0int
        }
    }
}

/// A whole block after thresholding.
pub open spec fn block_thr_spec(b: Seq<Seq<i64>>, t: int) -> Seq<Seq<i64>> {
    Seq::new(b.len(), |r: int| row_thr_spec(b[r], t))
}

/// Number of retained coefficients in a block.
pub open spec fn block_retained_spec(b: Seq<Seq<i64>>, t: int) -> int
    decreases b.len(),
{
    if b.len() == 0 {
        0
    } else {
        block_retained_spec(b.drop_last(), t) + row_retained_spec(b.last(), t)
    }
}

/// The count of retained coefficients in a row is between 0 and its length.
pub proof fn lemma_row_retained_range(s: Seq<i64>, t: int)
    ensures
        0 <= row_retained_spec(s, t) <= s.len(),
    decreases s.len(),
{
    if s.len() > 0 {
        lemma_row_retained_range(s.drop_last(), t);
    }
}

/// Threshold one row, returning the new row and the number of retained
/// coefficients.
fn threshold_row(s: &Vec<i64>, threshold: i64) -> (r: (Vec<i64>, usize))
    requires
        threshold >= 0,
    ensures
        r.0@ == row_thr_spec(s@, threshold as int),
        r.1 as int == row_retained_spec(s@, threshold as int),
        all_bounded(s@, crate::fixed::VAL_LIMIT as int) ==> all_bounded(
            r.0@,
            crate::fixed::VAL_LIMIT as int,
        ),
{
    let n = s.len();
    let mut out: Vec<i64> = Vec::new();
    let mut count: usize = 0;
    let mut i: usize = 0;
    while i < n
        invariant
            n == s.len(),
            threshold >= 0,
            i <= n,
            out@.len() == i,
            count <= i,
            forall|k: int| 0 <= k < i ==> out@[k] as int == thr_spec(s@[k] as int, threshold as int),
            count as int == row_retained_spec(s@.subrange(0, i as int), threshold as int),
        decreases n - i,
    {
        let v = s[i];
        proof {
            assert(s@.subrange(0, i as int + 1).drop_last() =~= s@.subrange(0, i as int));
            assert(s@.subrange(0, i as int + 1).last() == s@[i as int]);
            lemma_row_retained_range(s@.subrange(0, i as int), threshold as int);
        }
        if -threshold < v && v < threshold {
            out.push(0);
        } else {
            out.push(v);
            count = count + 1;
        }
        i = i + 1;
    }
    proof {
        assert(s@.subrange(0, n as int) =~= s@);
        assert(out@ =~= row_thr_spec(s@, threshold as int));
    }
    (out, count)
}

/// Zero every coefficient of a block whose magnitude is below `threshold`,
/// in place.
pub fn hard_threshold(block: &mut Vec<Vec<i64>>, threshold: i64)
    requires
        threshold >= 0,
        old(block).len() <= 0xffff,
        forall|r: int|
            0 <= r < old(block).len() ==> (#[trigger] old(block)@[r])@.len() <= 0xffff,
    ensures
        final(block).deep_view() == block_thr_spec(old(block).deep_view(), threshold as int),
{
    hard_threshold_count(block, threshold);
}

/// Like [`hard_threshold`], and additionally report how many coefficients
/// were retained.
pub fn hard_threshold_count(block: &mut Vec<Vec<i64>>, threshold: i64) -> (retained: usize)
    requires
        threshold >= 0,
        old(block).len() <= 0xffff,
        forall|r: int|
            0 <= r < old(block).len() ==> (#[trigger] old(block)@[r])@.len() <= 0xffff,
    ensures
        final(block).deep_view() == block_thr_spec(old(block).deep_view(), threshold as int),
        retained as int == block_retained_spec(old(block).deep_view(), threshold as int),
{
    let ghost orig = block.deep_view();
    let n = block.len();
    let mut count: usize = 0;
    let mut r: usize = 0;
    while r < n
        invariant
            n == block.len(),
            n <= 0xffff,
            threshold >= 0,
            orig.len() == n,
            forall|rr: int| 0 <= rr < n ==> (#[trigger] orig[rr]).len() <= 0xffff,
            r <= n,
            forall|rr: int| 0 <= rr < r ==> (#[trigger] block@[rr])@ == row_thr_spec(
                orig[rr],
                threshold as int,
            ),
            forall|rr: int| r <= rr < n ==> (#[trigger] block@[rr])@ == orig[rr],
            count as int == block_retained_spec(orig.subrange(0, r as int), threshold as int),
            count as int <= r as int * 0xffff,
        decreases n - r,
    {
        let (row, c) = threshold_row(&block[r], threshold);
        proof {
            assert(orig.subrange(0, r as int + 1).drop_last() =~= orig.subrange(0, r as int));
            assert(orig.subrange(0, r as int + 1).last() == orig[r as int]);
            lemma_row_retained_range(orig[r as int], threshold as int);
            assert(r as int * 0xffff + 0xffff == (r as int + 1) * 0xffff)
                by (nonlinear_arith);
            assert(n as int * 0xffff < 0xffff_ffff) by (nonlinear_arith)
                requires
                    n as int <= 0xffff,
            ;
            assert((r as int + 1) * 0xffff <= n as int * 0xffff) by (nonlinear_arith)
                requires
                    0 <= r as int + 1 <= n as int,
            ;
        }
        proof {
            assert(c as int == row_retained_spec(orig[r as int], threshold as int));
            assert(c as int <= 0xffff);
            assert(count as int <= r as int * 0xffff);
            assert(count as int + c as int <= (r as int + 1) * 0xffff);
        }
        block.set(r, row);
        count = count + c;
        r = r + 1;
    }
    proof {
        assert(orig.subrange(0, n as int) =~= orig);
        assert(block.deep_view() =~~= block_thr_spec(orig, threshold as int));
        assert(orig =~~= old(block).deep_view());
    }
    count
}

/// For a block of at most `rows` rows of length at most 8 each, the count
/// of retained coefficients is at most `rows * 8`.
pub proof fn lemma_block_retained_le(b: Seq<Seq<i64>>, t: int, rows: int)
    requires
        0 <= rows,
        b.len() <= rows,
        forall|r: int| 0 <= r < b.len() ==> (#[trigger] b[r]).len() <= 8,
    ensures
        0 <= block_retained_spec(b, t) <= rows * 8,
    decreases b.len(),
{
    if b.len() == 0 {
        assert(0 <= rows * 8) by (nonlinear_arith)
            requires
                0 <= rows,
        ;
    } else {
        lemma_block_retained_le(b.drop_last(), t, rows - 1);
        lemma_row_retained_range(b.last(), t);
        assert((rows - 1) * 8 + 8 == rows * 8) by (nonlinear_arith);
    }
}

} // verus!
