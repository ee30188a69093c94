//! Two-dimensional orthonormal DCT on fixed-size square blocks.
//!
//! The transform is the fixed-point analogue of the orthonormal DCT-II (and
//! its inverse, the DCT-III): the real coefficient matrix is held as 1.15
//! fixed-point integers, and every 1-D pass computes a rounded, saturating
//! dot product against one row (forward) or one column (inverse) of that
//! matrix.  Supported block sides are 4 and 8.

use vstd::prelude::*;

use crate::fixed::{all_bounded, lemma_mul_bound, rsh15_sat, sat15_spec, VAL_LIMIT};

verus! {

/// The block sides the transform supports.
pub open spec fn dct_size_ok(n: int) -> bool {
    n == 4 || n == 8
}

/// Marker for the sample types the transform accepts.
pub trait DctNum {

}

impl DctNum for i64 {

}

/// Entry `(u, i)` of the orthonormal DCT-II matrix for side `n`, as a 1.15
/// fixed-point integer: `round(2^15 * alpha(u) * cos(pi * (2i + 1) * u / (2n)))`
/// with `alpha(0) = sqrt(1/n)` and `alpha(u) = sqrt(2/n)` otherwise.
pub open spec fn dct_coef(n: int, u: int, i: int) -> int {
    if n == 4 {
        if u == 0 && i == 0 {
            16384
        } else if u == 0 && i == 1 {
            16384
        } else if u == 0 && i == 2 {
            16384
        } else if u == 0 && i == 3 {
            16384
        } else if u == 1 && i == 0 {
            21407
        } else if u == 1 && i == 1 {
            8867
        } else if u == 1 && i == 2 {
            -8867
        } else if u == 1 && i == 3 {
            -21407
        } else if u == 2 && i == 0 {
            16384
        } else if u == 2 && i == 1 {
            -16384
        } else if u == 2 && i == 2 {
            -16384
        } else if u == 2 && i == 3 {
            16384
        } else if u == 3 && i == 0 {
            8867
        } else if u == 3 && i == 1 {
            -21407
        } else if u == 3 && i == 2 {
            21407
        } else if u == 3 && i == 3 {
            -8867
        } else {
            0
        }
    } else {
        if u == 0 && i == 0 {
            11585
        } else if u == 0 && i == 1 {
            11585
        } else if u == 0 && i == 2 {
            11585
        } else if u == 0 && i == 3 {
            11585
        } else if u == 0 && i == 4 {
            11585
        } else if u == 0 && i == 5 {
            11585
        } else if u == 0 && i == 6 {
            11585
        } else if u == 0 && i == 7 {
            11585
        } else if u == 1 && i == 0 {
            16069
        } else if u == 1 && i == 1 {
            13623
        } else if u == 1 && i == 2 {
            9102
        } else if u == 1 && i == 3 {
            3196
        } else if u == 1 && i == 4 {
            -3196
        } else if u == 1 && i == 5 {
            -9102
        } else if u == 1 && i == 6 {
            -13623
        } else if u == 1 && i == 7 {
            -16069
        } else if u == 2 && i == 0 {
            15137
        } else if u == 2 && i == 1 {
            6270
        } else if u == 2 && i == 2 {
            -6270
        } else if u == 2 && i == 3 {
            -15137
        } else if u == 2 && i == 4 {
            -15137
        } else if u == 2 && i == 5 {
            -6270
        } else if u == 2 && i == 6 {
            6270
        } else if u == 2 && i == 7 {
            15137
        } else if u == 3 && i == 0 {
            13623
        } else if u == 3 && i == 1 {
            -3196
        } else if u == 3 && i == 2 {
            -16069
        } else if u == 3 && i == 3 {
            -9102
        } else if u == 3 && i == 4 {
            9102
        } else if u == 3 && i == 5 {
            16069
        } else if u == 3 && i == 6 {
            3196
        } else if u == 3 && i == 7 {
            -13623
        } else if u == 4 && i == 0 {
            11585
        } else if u == 4 && i == 1 {
            -11585
        } else if u == 4 && i == 2 {
            -11585
        } else if u == 4 && i == 3 {
            11585
        } else if u == 4 && i == 4 {
            11585
        } else if u == 4 && i == 5 {
            -11585
        } else if u == 4 && i == 6 {
            -11585
        } else if u == 4 && i == 7 {
            11585
        } else if u == 5 && i == 0 {
            9102
        } else if u == 5 && i == 1 {
            -16069
        } else if u == 5 && i == 2 {
            3196
        } else if u == 5 && i == 3 {
            13623
        } else if u == 5 && i == 4 {
            -13623
        } else if u == 5 && i == 5 {
            -3196
        } else if u == 5 && i == 6 {
            16069
        } else if u == 5 && i == 7 {
            -9102
        } else if u == 6 && i == 0 {
            6270
        } else if u == 6 && i == 1 {
            -15137
        } else if u == 6 && i == 2 {
            15137
        } else if u == 6 && i == 3 {
            -6270
        } else if u == 6 && i == 4 {
            -6270
        } else if u == 6 && i == 5 {
            15137
        } else if u == 6 && i == 6 {
            -15137
        } else if u == 6 && i == 7 {
            6270
        } else if u == 7 && i == 0 {
            3196
        } else if u == 7 && i == 1 {
            -9102
        } else if u == 7 && i == 2 {
            13623
        } else if u == 7 && i == 3 {
            -16069
        } else if u == 7 && i == 4 {
            16069
        } else if u == 7 && i == 5 {
            -13623
        } else if u == 7 && i == 6 {
            9102
        } else if u == 7 && i == 7 {
            -3196
        } else {
            0
        }
    }
}

/// Executable table lookup, equal to [`dct_coef`].
pub fn dct_coef_exec(n: usize, u: usize, i: usize) -> (r: i64)
    requires
        dct_size_ok(n as int),
        u < n,
        i < n,
    ensures
        r as int == dct_coef(n as int, u as int, i as int),
{
    if n == 4 {
        if u == 0 && i == 0 {
            16384
        } else if u == 0 && i == 1 {
            16384
        } else if u == 0 && i == 2 {
            16384
        } else if u == 0 && i == 3 {
            16384
        } else if u == 1 && i == 0 {
            21407
        } else if u == 1 && i == 1 {
            8867
        } else if u == 1 && i == 2 {
            -8867
        } else if u == 1 && i == 3 {
            -21407
        } else if u == 2 && i == 0 {
            16384
        } else if u == 2 && i == 1 {
            -16384
        } else if u == 2 && i == 2 {
            -16384
        } else if u == 2 && i == 3 {
            16384
        } else if u == 3 && i == 0 {
            8867
        } else if u == 3 && i == 1 {
            -21407
        } else if u == 3 && i == 2 {
            21407
        } else if u == 3 && i == 3 {
            -8867
        } else {
            0
        }
    } else {
        if u == 0 && i == 0 {
            11585
        } else if u == 0 && i == 1 {
            11585
        } else if u == 0 && i == 2 {
            11585
        } else if u == 0 && i == 3 {
            11585
        } else if u == 0 && i == 4 {
            11585
        } else if u == 0 && i == 5 {
            11585
        } else if u == 0 && i == 6 {
            11585
        } else if u == 0 && i == 7 {
            11585
        } else if u == 1 && i == 0 {
            16069
        } else if u == 1 && i == 1 {
            13623
        } else if u == 1 && i == 2 {
            9102
        } else if u == 1 && i == 3 {
            3196
        } else if u == 1 && i == 4 {
            -3196
        } else if u == 1 && i == 5 {
            -9102
        } else if u == 1 && i == 6 {
            -13623
        } else if u == 1 && i == 7 {
            -16069
        } else if u == 2 && i == 0 {
            15137
        } else if u == 2 && i == 1 {
            6270
        } else if u == 2 && i == 2 {
            -6270
        } else if u == 2 && i == 3 {
            -15137
        } else if u == 2 && i == 4 {
            -15137
        } else if u == 2 && i == 5 {
            -6270
        } else if u == 2 && i == 6 {
            6270
        } else if u == 2 && i == 7 {
            15137
        } else if u == 3 && i == 0 {
            13623
        } else if u == 3 && i == 1 {
            -3196
        } else if u == 3 && i == 2 {
            -16069
        } else if u == 3 && i == 3 {
            -9102
        } else if u == 3 && i == 4 {
            9102
        } else if u == 3 && i == 5 {
            16069
        } else if u == 3 && i == 6 {
            3196
        } else if u == 3 && i == 7 {
            -13623
        } else if u == 4 && i == 0 {
            11585
        } else if u == 4 && i == 1 {
            -11585
        } else if u == 4 && i == 2 {
            -11585
        } else if u == 4 && i == 3 {
            11585
        } else if u == 4 && i == 4 {
            11585
        } else if u == 4 && i == 5 {
            -11585
        } else if u == 4 && i == 6 {
            -11585
        } else if u == 4 && i == 7 {
            11585
        } else if u == 5 && i == 0 {
            9102
        } else if u == 5 && i == 1 {
            -16069
        } else if u == 5 && i == 2 {
            3196
        } else if u == 5 && i == 3 {
            13623
        } else if u == 5 && i == 4 {
            -13623
        } else if u == 5 && i == 5 {
            -3196
        } else if u == 5 && i == 6 {
            16069
        } else if u == 5 && i == 7 {
            -9102
        } else if u == 6 && i == 0 {
            6270
        } else if u == 6 && i == 1 {
            -15137
        } else if u == 6 && i == 2 {
            15137
        } else if u == 6 && i == 3 {
            -6270
        } else if u == 6 && i == 4 {
            -6270
        } else if u == 6 && i == 5 {
            15137
        } else if u == 6 && i == 6 {
            -15137
        } else if u == 6 && i == 7 {
            6270
        } else if u == 7 && i == 0 {
            3196
        } else if u == 7 && i == 1 {
            -9102
        } else if u == 7 && i == 2 {
            13623
        } else if u == 7 && i == 3 {
            -16069
        } else if u == 7 && i == 4 {
            16069
        } else if u == 7 && i == 5 {
            -13623
        } else if u == 7 && i == 6 {
            9102
        } else if u == 7 && i == 7 {
            -3196
        } else {
            0
        }
    }
}

/// Every table entry has magnitude at most `2^15`.
pub proof fn lemma_dct_coef_bound(n: int, u: int, i: int)
    ensures
        -32768 <= dct_coef(n, u, i) <= 32768,
{
}

/// Partial dot product of `x` against line `k` of the coefficient matrix:
/// row `k` for the forward transform, column `k` for the inverse.
pub open spec fn coef_dot(x: Seq<i64>, n: int, k: int, fwd: bool, cnt: int) -> int
    decreases cnt,
{
    if cnt <= 0 {
        0
    } else {
        coef_dot(x, n, k, fwd, cnt - 1) + x[cnt - 1] * (if fwd {
            dct_coef(n, k, cnt - 1)
        } else {
            dct_coef(n, cnt - 1, k)
        })
    }
}

/// One output value of a 1-D pass: the full dot product, rounded down by 15
/// bits and saturated to the working range.
pub open spec fn t1d_spec(x: Seq<i64>, n: int, k: int, fwd: bool) -> int {
    sat15_spec(coef_dot(x, n, k, fwd, n))
}

/// One 1-D pass over a line of 4 or 8 samples.
pub fn transform1d(x: &Vec<i64>, fwd: bool) -> (y: Vec<i64>)
    requires
        dct_size_ok(x.len() as int),
        all_bounded(x@, VAL_LIMIT as int),
    ensures
        y.len() == x.len(),
        forall|k: int|
            0 <= k < y.len() ==> y@[k] as int == t1d_spec(x@, x.len() as int, k, fwd),
        all_bounded(y@, VAL_LIMIT as int),
{
    let n = x.len();
    let mut y: Vec<i64> = Vec::new();
    let mut k: usize = 0;
    while k < n
        invariant
            dct_size_ok(n as int),
            n == x.len(),
            all_bounded(x@, VAL_LIMIT as int),
            k <= n,
            y.len() == k,
            forall|kk: int| 0 <= kk < k ==> y@[kk] as int == t1d_spec(x@, n as int, kk, fwd),
            all_bounded(y@, VAL_LIMIT as int),
        decreases n - k,
    {
        // |sample * coefficient| stays below 2^55, so eight of them fit in i64.
        let mut acc: i64 = 0;
        let mut i: usize = 0;
        while i < n
            invariant
                dct_size_ok(n as int),
                n == x.len(),
                all_bounded(x@, VAL_LIMIT as int),
                k < n,
                i <= n,
                acc as int == coef_dot(x@, n as int, k as int, fwd, i as int),
                -(i as int * 0x80_0000_0000_0000) <= acc as int <= i as int
                    * 0x80_0000_0000_0000,
            decreases n - i,
        {
            let c = if fwd {
                dct_coef_exec(n, k, i)
            } else {
                dct_coef_exec(n, i, k)
            };
            proof {
                lemma_dct_coef_bound(n as int, k as int, i as int);
                lemma_dct_coef_bound(n as int, i as int, k as int);
                lemma_mul_bound(x@[i as int] as int, c as int, VAL_LIMIT as int, 32768);
            }
            acc = acc + x[i] * c;
            i = i + 1;
        }
        let v = rsh15_sat(acc);
        y.push(v);
        k = k + 1;
    }
    y
}

/// Well-formed `n` by `n` block with samples in the working range.
pub open spec fn block_wf(b: Seq<Seq<i64>>, n: int) -> bool {
    &&& b.len() == n
    &&& forall|r: int| 0 <= r < n ==> (#[trigger] b[r]).len() == n
    &&& forall|r: int| 0 <= r < n ==> all_bounded(#[trigger] b[r], VAL_LIMIT as int)
}

/// Apply a 1-D pass to every row of a block.
pub open spec fn row_pass_spec(b: Seq<Seq<i64>>, n: int, fwd: bool) -> Seq<Seq<i64>> {
    Seq::new(n as nat, |r: int| Seq::new(n as nat, |k: int| t1d_spec(b[r], n, k, fwd) as i64))
}

/// Column `j` of a block.
pub open spec fn col_seq(b: Seq<Seq<i64>>, n: int, j: int) -> Seq<i64> {
    Seq::new(n as nat, |r: int| b[r][j])
}

/// Apply a 1-D pass to every column of a block.
pub open spec fn col_pass_spec(b: Seq<Seq<i64>>, n: int, fwd: bool) -> Seq<Seq<i64>> {
    Seq::new(
        n as nat,
        |r: int| Seq::new(n as nat, |j: int| t1d_spec(col_seq(b, n, j), n, r, fwd) as i64),
    )
}

/// The 2-D forward transform: a row pass followed by a column pass.
pub open spec fn dct2d_spec(b: Seq<Seq<i64>>, n: int) -> Seq<Seq<i64>> {
    col_pass_spec(row_pass_spec(b, n, true), n, true)
}

/// The 2-D inverse transform: a row pass followed by a column pass, each
/// against the transposed coefficient matrix.
pub open spec fn idct2d_spec(b: Seq<Seq<i64>>, n: int) -> Seq<Seq<i64>> {
    col_pass_spec(row_pass_spec(b, n, false), n, false)
}

/// A pass output is itself a well-formed block.
pub proof fn lemma_pass_wf(b: Seq<Seq<i64>>, n: int, fwd: bool)
    requires
        dct_size_ok(n),
    ensures
        block_wf(row_pass_spec(b, n, fwd), n),
        block_wf(col_pass_spec(b, n, fwd), n),
{
}

/// In-place 2-D pass over a square block; both directions share the shape.
fn transform2d(matrix: &mut Vec<Vec<i64>>, fwd: bool)
    requires
        dct_size_ok(old(matrix).len() as int),
        block_wf(old(matrix).deep_view(), old(matrix).len() as int),
    ensures
        final(matrix).len() == old(matrix).len(),
        block_wf(final(matrix).deep_view(), old(matrix).len() as int),
        final(matrix).deep_view() == col_pass_spec(
            row_pass_spec(old(matrix).deep_view(), old(matrix).len() as int, fwd),
            old(matrix).len() as int,
            fwd,
        ),
{
    let n = matrix.len();
    let ghost orig = matrix.deep_view();
    let ghost origv = matrix@;
    proof {
        assert(forall|rr: int| 0 <= rr < n ==> orig[rr] == (#[trigger] origv[rr])@);
    }
    // Row pass.
    let mut r: usize = 0;
    while r < n
        invariant
            dct_size_ok(n as int),
            matrix.len() == n,
            block_wf(orig, n as int),
            orig.len() == n,
            origv.len() == n,
            forall|rr: int| 0 <= rr < n ==> orig[rr] == (#[trigger] origv[rr])@,
            r <= n,
            forall|rr: int| 0 <= rr < r ==> (#[trigger] matrix@[rr])@.len() == n,
            forall|rr: int| 0 <= rr < r ==> all_bounded((#[trigger] matrix@[rr])@, VAL_LIMIT as int),
            forall|rr: int, kk: int|
                0 <= rr < r && 0 <= kk < n ==> matrix@[rr]@[kk] as int == t1d_spec(
                    orig[rr],
                    n as int,
                    kk,
                    fwd,
                ),
            forall|rr: int| r <= rr < n ==> matrix@[rr] == origv[rr],
        decreases n - r,
    {
        proof {
            assert(matrix@[r as int] == origv[r as int]);
            assert(orig[r as int] == origv[r as int]@);
            assert(orig[r as int].len() == n);
        }
        let row = transform1d(&matrix[r], fwd);
        matrix.set(r, row);
        r = r + 1;
    }
    let ghost mid = row_pass_spec(orig, n as int, fwd);
    proof {
        lemma_pass_wf(orig, n as int, fwd);
        assert(forall|rr: int| 0 <= rr < n ==> (#[trigger] matrix@[rr])@ =~= mid[rr]);
    }
    // Column pass, gathered per column.
    let mut cols_t: Vec<Vec<i64>> = Vec::new();
    let mut j: usize = 0;
    while j < n
        invariant
            dct_size_ok(n as int),
            matrix.len() == n,
            block_wf(mid, n as int),
            forall|rr: int| 0 <= rr < n ==> (#[trigger] matrix@[rr])@ == mid[rr],
            j <= n,
            cols_t.len() == j,
            forall|jj: int| 0 <= jj < j ==> (#[trigger] cols_t@[jj])@.len() == n,
            forall|jj: int| 0 <= jj < j ==> all_bounded(
                (#[trigger] cols_t@[jj])@,
                VAL_LIMIT as int,
            ),
            forall|jj: int, rr: int|
                0 <= jj < j && 0 <= rr < n ==> cols_t@[jj]@[rr] as int == t1d_spec(
                    col_seq(mid, n as int, jj),
                    n as int,
                    rr,
                    fwd,
                ),
        decreases n - j,
    {
        let mut col: Vec<i64> = Vec::new();
        let mut rr: usize = 0;
        while rr < n
            invariant
                matrix.len() == n,
                block_wf(mid, n as int),
                forall|t: int| 0 <= t < n ==> (#[trigger] matrix@[t])@ == mid[t],
                j < n,
                rr <= n,
                col@.len() == rr,
                forall|t: int| 0 <= t < rr ==> col@[t] == col_seq(mid, n as int, j as int)[t],
            decreases n - rr,
        {
            col.push(matrix[rr][j]);
            rr = rr + 1;
        }
        proof {
            assert(col@ =~= col_seq(mid, n as int, j as int));
        }
        let t = transform1d(&col, fwd);
        cols_t.push(t);
        j = j + 1;
    }
    // Write the transposed column results back.
    let ghost res = col_pass_spec(mid, n as int, fwd);
    let mut out: Vec<Vec<i64>> = Vec::new();
    let mut r2: usize = 0;
    while r2 < n
        invariant
            dct_size_ok(n as int),
            cols_t.len() == n,
            res == col_pass_spec(mid, n as int, fwd),
            forall|jj: int| 0 <= jj < n ==> (#[trigger] cols_t@[jj])@.len() == n,
            forall|jj: int| 0 <= jj < n ==> all_bounded(
                (#[trigger] cols_t@[jj])@,
                VAL_LIMIT as int,
            ),
            forall|jj: int, rr: int|
                0 <= jj < n && 0 <= rr < n ==> cols_t@[jj]@[rr] as int == t1d_spec(
                    col_seq(mid, n as int, jj),
                    n as int,
                    rr,
                    fwd,
                ),
            r2 <= n,
            out.len() == r2,
            forall|rr: int| 0 <= rr < r2 ==> (#[trigger] out@[rr])@ == res[rr],
        decreases n - r2,
    {
        let mut row: Vec<i64> = Vec::new();
        let mut j2: usize = 0;
        while j2 < n
            invariant
                cols_t.len() == n,
                forall|jj: int| 0 <= jj < n ==> (#[trigger] cols_t@[jj])@.len() == n,
                forall|jj: int, rr: int|
                    0 <= jj < n && 0 <= rr < n ==> cols_t@[jj]@[rr] as int == t1d_spec(
                        col_seq(mid, n as int, jj),
                        n as int,
                        rr,
                        fwd,
                    ),
                r2 < n,
                j2 <= n,
                row.len() == j2,
                forall|jj: int| 0 <= jj < j2 ==> row@[jj] as int == t1d_spec(
                    col_seq(mid, n as int, jj),
                    n as int,
                    r2 as int,
                    fwd,
                ),
            decreases n - j2,
        {
            row.push(cols_t[j2][r2]);
            j2 = j2 + 1;
        }
        proof {
            assert(row@ =~= res[r2 as int]);
        }
        out.push(row);
        r2 = r2 + 1;
    }
    *matrix = out;
    proof {
        lemma_pass_wf(mid, n as int, fwd);
        assert(matrix.deep_view() =~~= res);
        assert(orig =~~= old(matrix).deep_view());
    }
}

/// In-place 2-D forward DCT on a square block of side 4 or 8.
pub fn dct2d(matrix: &mut Vec<Vec<i64>>)
    requires
        dct_size_ok(old(matrix).len() as int),
        block_wf(old(matrix).deep_view(), old(matrix).len() as int),
    ensures
        final(matrix).len() == old(matrix).len(),
        block_wf(final(matrix).deep_view(), old(matrix).len() as int),
        final(matrix).deep_view() == dct2d_spec(old(matrix).deep_view(), old(matrix).len() as int),
{
    transform2d(matrix, true);
}

/// In-place 2-D inverse DCT on a square block of side 4 or 8.
pub fn idct2d(matrix: &mut Vec<Vec<i64>>)
    requires
        dct_size_ok(old(matrix).len() as int),
        block_wf(old(matrix).deep_view(), old(matrix).len() as int),
    ensures
        final(matrix).len() == old(matrix).len(),
        block_wf(final(matrix).deep_view(), old(matrix).len() as int),
        final(matrix).deep_view() == idct2d_spec(old(matrix).deep_view(), old(matrix).len() as int),
{
    transform2d(matrix, false);
}

/// Planner-style wrapper for the forward transform.
pub struct Dct2D {
    /// Number of rows of the planned block.
    pub rows: usize,
    /// Number of columns of the planned block.
    pub cols: usize,
}

impl Dct2D {
    /// Create a planner for square blocks of the given side.
    pub fn new(rows: usize, cols: usize) -> (r: Self)
        ensures
            r.rows == rows,
            r.cols == cols,
    {
        Self { rows, cols }
    }

    /// Spec view of the planned side.
    pub open spec fn side(self) -> int {
        self.rows as int
    }

    /// Forward 2-D DCT in place.
    pub fn dct_2d(&self, buffer: &mut Vec<Vec<i64>>)
        requires
            self.rows == self.cols,
            old(buffer).len() == self.side(),
            dct_size_ok(self.side()),
            block_wf(old(buffer).deep_view(), self.side()),
        ensures
            final(buffer).len() == old(buffer).len(),
            block_wf(final(buffer).deep_view(), self.side()),
            final(buffer).deep_view() == dct2d_spec(old(buffer).deep_view(), self.side()),
    {
        dct2d(buffer);
    }

    /// Forward 2-D DCT with separate input and output buffers.
    pub fn process(&self, input: &Vec<Vec<i64>>, output: &mut Vec<Vec<i64>>)
        requires
            self.rows == self.cols,
            input.len() == self.side(),
            dct_size_ok(self.side()),
            block_wf(input.deep_view(), self.side()),
        ensures
            final(output).deep_view() == dct2d_spec(input.deep_view(), self.side()),
            block_wf(final(output).deep_view(), self.side()),
    {
        let mut work = copy_block(input);
        dct2d(&mut work);
        *output = work;
    }
}

/// Planner-style wrapper for the inverse transform.
pub struct IDct2D {
    /// Number of rows of the planned block.
    pub rows: usize,
    /// Number of columns of the planned block.
    pub cols: usize,
}

impl IDct2D {
    /// Create a planner for square blocks of the given side.
    pub fn new(rows: usize, cols: usize) -> (r: Self)
        ensures
            r.rows == rows,
            r.cols == cols,
    {
        Self { rows, cols }
    }

    /// Spec view of the planned side.
    pub open spec fn side(self) -> int {
        self.rows as int
    }

    /// Inverse 2-D DCT in place.
    pub fn idct_2d(&self, buffer: &mut Vec<Vec<i64>>)
        requires
            self.rows == self.cols,
            old(buffer).len() == self.side(),
            dct_size_ok(self.side()),
            block_wf(old(buffer).deep_view(), self.side()),
        ensures
            final(buffer).len() == old(buffer).len(),
            block_wf(final(buffer).deep_view(), self.side()),
            final(buffer).deep_view() == idct2d_spec(old(buffer).deep_view(), self.side()),
    {
        idct2d(buffer);
    }

    /// Inverse 2-D DCT with separate input and output buffers.
    pub fn process(&self, input: &Vec<Vec<i64>>, output: &mut Vec<Vec<i64>>)
        requires
            self.rows == self.cols,
            input.len() == self.side(),
            dct_size_ok(self.side()),
            block_wf(input.deep_view(), self.side()),
        ensures
            final(output).deep_view() == idct2d_spec(input.deep_view(), self.side()),
            block_wf(final(output).deep_view(), self.side()),
    {
        let mut work = copy_block(input);
        idct2d(&mut work);
        *output = work;
    }
}

/// Element-wise copy of a block.
pub fn copy_block(input: &Vec<Vec<i64>>) -> (r: Vec<Vec<i64>>)
    ensures
        r.deep_view() == input.deep_view(),
        r.len() == input.len(),
{
    let mut out: Vec<Vec<i64>> = Vec::new();
    let n = input.len();
    let mut i: usize = 0;
    while i < n
        invariant
            n == input.len(),
            i <= n,
            out.len() == i,
            forall|k: int| 0 <= k < i ==> (#[trigger] out@[k])@ == input@[k]@,
        decreases n - i,
    {
        let m = input[i].len();
        let mut row: Vec<i64> = Vec::new();
        let mut j: usize = 0;
        while j < m
            invariant
                n == input.len(),
                i < n,
                m == input@[i as int]@.len(),
                j <= m,
                row@.len() == j,
                forall|k: int| 0 <= k < j ==> row@[k] == input@[i as int]@[k],
            decreases m - j,
        {
            row.push(input[i][j]);
            j = j + 1;
        }
        proof {
            assert(row@ =~= input@[i as int]@);
        }
        out.push(row);
        i = i + 1;
    }
    proof {
        assert(out.deep_view() =~~= input.deep_view());
    }
    out
}

/// Clamped rounding division used by the extra scaling of [`scaled_dct2`].
pub open spec fn scale_down_spec(v: int, n: int) -> int {
    crate::fixed::clamp_spec((v + n / 2) / n, -(VAL_LIMIT as int), VAL_LIMIT as int)
}

/// Clamped multiplication used by the pre-scaling of [`scaled_idct2`].
pub open spec fn scale_up_spec(v: int, n: int) -> int {
    crate::fixed::clamp_spec(v * n, -(VAL_LIMIT as int), VAL_LIMIT as int)
}

/// A block with every entry scaled down by `n`, rounding to nearest.
pub open spec fn block_scale_down_spec(b: Seq<Seq<i64>>, n: int) -> Seq<Seq<i64>> {
    Seq::new(n as nat, |r: int| Seq::new(n as nat, |j: int| scale_down_spec(b[r][j] as int, n) as i64))
}

/// A block with every entry scaled up by `n`, saturating.
pub open spec fn block_scale_up_spec(b: Seq<Seq<i64>>, n: int) -> Seq<Seq<i64>> {
    Seq::new(n as nat, |r: int| Seq::new(n as nat, |j: int| scale_up_spec(b[r][j] as int, n) as i64))
}

/// Forward transform followed by a division of every coefficient by the
/// block side, matching the extra `1/sqrt(rows * cols)` factor of the real
/// transform (for a square block of side `n` that factor is exactly `1/n`).
pub fn scaled_dct2(buffer: &mut Vec<Vec<i64>>)
    requires
        dct_size_ok(old(buffer).len() as int),
        block_wf(old(buffer).deep_view(), old(buffer).len() as int),
    ensures
        final(buffer).len() == old(buffer).len(),
        block_wf(final(buffer).deep_view(), old(buffer).len() as int),
        final(buffer).deep_view() == block_scale_down_spec(
            dct2d_spec(old(buffer).deep_view(), old(buffer).len() as int),
            old(buffer).len() as int,
        ),
{
    let n = buffer.len();
    dct2d(buffer);
    let ghost t = buffer.deep_view();
    let mut r: usize = 0;
    while r < n
        invariant
            dct_size_ok(n as int),
            buffer.len() == n,
            block_wf(t, n as int),
            r <= n,
            forall|rr: int| 0 <= rr < r ==> (#[trigger] buffer@[rr])@.len() == n,
            forall|rr: int| 0 <= rr < r ==> all_bounded((#[trigger] buffer@[rr])@, VAL_LIMIT as int),
            forall|rr: int, jj: int|
                0 <= rr < r && 0 <= jj < n ==> buffer@[rr]@[jj] as int == scale_down_spec(
                    t[rr][jj] as int,
                    n as int,
                ),
            forall|rr: int| r <= rr < n ==> (#[trigger] buffer@[rr])@ == t[rr],
        decreases n - r,
    {
        let mut row: Vec<i64> = Vec::new();
        let mut j: usize = 0;
        while j < n
            invariant
                dct_size_ok(n as int),
                buffer.len() == n,
                block_wf(t, n as int),
                r < n,
                (#[trigger] buffer@[r as int])@ == t[r as int],
                j <= n,
                row@.len() == j,
                forall|jj: int|
                    0 <= jj < j ==> row@[jj] as int == scale_down_spec(
                        t[r as int][jj] as int,
                        n as int,
                    ),
                all_bounded(row@, VAL_LIMIT as int),
            decreases n - j,
        {
            let v = buffer[r][j];
            proof {
                crate::fixed::lemma_div_bound(
                    v as int + (n as int) / 2,
                    n as int,
                    VAL_LIMIT as int + 4,
                );
            }
            let q = match (v + (n as i64) / 2).checked_div_euclid(n as i64) {
                Some(q) => q,
                None => 0,  // unreachable: the divisor is positive and v is bounded
            };
            row.push(crate::fixed::clamp_i64(q, -VAL_LIMIT, VAL_LIMIT));
            j = j + 1;
        }
        buffer.set(r, row);
        r = r + 1;
    }
    proof {
        assert(buffer.deep_view() =~~= block_scale_down_spec(t, n as int));
    }
}

/// Multiplication of every coefficient by the block side followed by the
/// inverse transform; inverse of [`scaled_dct2`] up to rounding.
pub fn scaled_idct2(buffer: &mut Vec<Vec<i64>>)
    requires
        dct_size_ok(old(buffer).len() as int),
        block_wf(old(buffer).deep_view(), old(buffer).len() as int),
    ensures
        final(buffer).len() == old(buffer).len(),
        block_wf(final(buffer).deep_view(), old(buffer).len() as int),
        final(buffer).deep_view() == idct2d_spec(
            block_scale_up_spec(old(buffer).deep_view(), old(buffer).len() as int),
            old(buffer).len() as int,
        ),
{
    let n = buffer.len();
    let ghost t = buffer.deep_view();
    let mut r: usize = 0;
    while r < n
        invariant
            dct_size_ok(n as int),
            buffer.len() == n,
            block_wf(t, n as int),
            r <= n,
            forall|rr: int| 0 <= rr < r ==> (#[trigger] buffer@[rr])@.len() == n,
            forall|rr: int| 0 <= rr < r ==> all_bounded((#[trigger] buffer@[rr])@, VAL_LIMIT as int),
            forall|rr: int, jj: int|
                0 <= rr < r && 0 <= jj < n ==> buffer@[rr]@[jj] as int == scale_up_spec(
                    t[rr][jj] as int,
                    n as int,
                ),
            forall|rr: int| r <= rr < n ==> (#[trigger] buffer@[rr])@ == t[rr],
        decreases n - r,
    {
        let mut row: Vec<i64> = Vec::new();
        let mut j: usize = 0;
        while j < n
            invariant
                dct_size_ok(n as int),
                buffer.len() == n,
                block_wf(t, n as int),
                r < n,
                (#[trigger] buffer@[r as int])@ == t[r as int],
                j <= n,
                row@.len() == j,
                forall|jj: int|
                    0 <= jj < j ==> row@[jj] as int == scale_up_spec(
                        t[r as int][jj] as int,
                        n as int,
                    ),
                all_bounded(row@, VAL_LIMIT as int),
            decreases n - j,
        {
            let v = buffer[r][j];
            proof {
                lemma_mul_bound(v as int, n as int, VAL_LIMIT as int, 8);
            }
            row.push(crate::fixed::clamp_i64(v * (n as i64), -VAL_LIMIT, VAL_LIMIT));
            j = j + 1;
        }
        buffer.set(r, row);
        r = r + 1;
    }
    proof {
        assert(buffer.deep_view() =~~= block_scale_up_spec(t, n as int));
    }
    idct2d(buffer);
}

/// Sum of the first `cnt` entries of line `k` of the coefficient matrix.
pub open spec fn coef_row_sum(n: int, k: int, cnt: int) -> int
    decreases cnt,
{
    if cnt <= 0 {
        0
    } else {
        coef_row_sum(n, k, cnt - 1) + dct_coef(n, k, cnt - 1)
    }
}

/// A block whose entries all hold `v`.
pub open spec fn const_block(v: i64, n: int) -> Seq<Seq<i64>> {
    Seq::new(n as nat, |r: int| Seq::new(n as nat, |c: int| v))
}

/// The dot product of a constant line against the table factors into the
/// value times the row sum.
proof fn lemma_coef_dot_const(x: Seq<i64>, v: i64, n: int, k: int, cnt: int)
    requires
        0 <= cnt <= x.len(),
        forall|i: int| 0 <= i < x.len() ==> x[i] == v,
    ensures
        coef_dot(x, n, k, true, cnt) == v * coef_row_sum(n, k, cnt),
    decreases cnt,
{
    if cnt <= 0 {
        assert(v as int * 0 == 0) by (nonlinear_arith);
    } else {
        lemma_coef_dot_const(x, v, n, k, cnt - 1);
        let s = coef_row_sum(n, k, cnt - 1);
        let c = dct_coef(n, k, cnt - 1);
        assert(v * s + v * c == v * (s + c)) by (nonlinear_arith);
    }
}

/// Every non-constant line of the coefficient matrix sums to zero: the
/// cosine samples cancel in pairs, and the rounding used to build the table
/// keeps the cancellation exact.
pub proof fn lemma_coef_row_sum_zero(n: int, k: int)
    requires
        dct_size_ok(n),
        1 <= k < n,
    ensures
        coef_row_sum(n, k, n) == 0,
{
    reveal_with_fuel(coef_row_sum, 10);
    if n == 4 {
        if k == 1 {
            assert(coef_row_sum(4, 1, 4) == 0);
        } else if k == 2 {
            assert(coef_row_sum(4, 2, 4) == 0);
        } else {
            assert(coef_row_sum(4, 3, 4) == 0);
        }
    } else {
        if k == 1 {
            assert(coef_row_sum(8, 1, 8) == 0);
        } else if k == 2 {
            assert(coef_row_sum(8, 2, 8) == 0);
        } else if k == 3 {
            assert(coef_row_sum(8, 3, 8) == 0);
        } else if k == 4 {
            assert(coef_row_sum(8, 4, 8) == 0);
        } else if k == 5 {
            assert(coef_row_sum(8, 5, 8) == 0);
        } else if k == 6 {
            assert(coef_row_sum(8, 6, 8) == 0);
        } else {
            assert(coef_row_sum(8, 7, 8) == 0);
        }
    }
}

/// The dot product of an all-zero line vanishes.
proof fn lemma_coef_dot_zero(x: Seq<i64>, n: int, k: int, fwd: bool, cnt: int)
    requires
        0 <= cnt <= x.len(),
        forall|i: int| 0 <= i < x.len() ==> x[i] == 0,
    ensures
        coef_dot(x, n, k, fwd, cnt) == 0,
    decreases cnt,
{
    if cnt > 0 {
        lemma_coef_dot_zero(x, n, k, fwd, cnt - 1);
    }
}

/// Toward the identity on flat input: the 2-D transform of a constant block
/// is zero at every position but the DC coefficient.
pub proof fn lemma_dct2d_of_constant(v: i64, n: int)
    requires
        dct_size_ok(n),
    ensures
        forall|r: int, c: int|
            0 <= r < n && 0 <= c < n && !(r == 0 && c == 0) ==> #[trigger] dct2d_spec(
                const_block(v, n),
                n,
            )[r][c] == 0,
{
    let b = const_block(v, n);
    let mid = row_pass_spec(b, n, true);
    let d = t1d_spec(b[0], n, 0, true) as i64;
    // Row pass: every row becomes the DC value followed by zeros.
    assert forall|r: int, k: int| 0 <= r < n && 1 <= k < n implies #[trigger] mid[r][k] == 0 by {
        lemma_coef_dot_const(b[r], v, n, k, n);
        lemma_coef_row_sum_zero(n, k);
        assert(v as int * 0 == 0) by (nonlinear_arith);
        assert(coef_dot(b[r], n, k, true, n) == 0);
        assert(sat15_spec(0) == 0);
    }
    assert forall|r: int| 0 <= r < n implies #[trigger] mid[r][0] == d by {
        assert(b[r] =~= b[0]);
    }
    // Column pass: columns beyond the first are zero, and the first column
    // is constant, so only the top-left output can be non-zero.
    assert forall|r: int, c: int|
        0 <= r < n && 0 <= c < n && !(r == 0 && c == 0) implies #[trigger] dct2d_spec(
        b,
        n,
    )[r][c] == 0 by {
        let col = col_seq(mid, n, c);
        if c >= 1 {
            assert(forall|t: int| 0 <= t < col.len() ==> #[trigger] col[t] == 0);
            lemma_coef_dot_zero(col, n, r, true, n);
            assert(sat15_spec(0) == 0);
        } else {
            assert(forall|t: int| 0 <= t < col.len() ==> #[trigger] col[t] == d);
            lemma_coef_dot_const(col, d, n, r, n);
            lemma_coef_row_sum_zero(n, r);
            assert(d as int * 0 == 0) by (nonlinear_arith);
            assert(sat15_spec(0) == 0);
        }
    }
}

/// A block holding `d` in its top-left corner and zero elsewhere.
pub open spec fn dc_block(d: i64, n: int) -> Seq<Seq<i64>> {
    Seq::new(
        n as nat,
        |r: int|
            Seq::new(
                n as nat,
                |c: int|
                    if r == 0 && c == 0 {
                        d
                    } else {
                        0i64
                    },
            ),
    )
}

/// The first line of the coefficient matrix is constant.
proof fn lemma_coef_dc_row_constant(n: int, i: int)
    requires
        dct_size_ok(n),
        0 <= i < n,
    ensures
        dct_coef(n, 0, i) == dct_coef(n, 0, 0),
{
}

/// The inverse transform of a block with a lone DC coefficient is constant:
/// every output position holds the same value.
pub proof fn lemma_idct2d_of_dc(d: i64, n: int)
    requires
        dct_size_ok(n),
    ensures
        ({
            let c0 = dct_coef(n, 0, 0);
            let e = sat15_spec(d * c0);
            forall|r: int, c: int|
                0 <= r < n && 0 <= c < n ==> #[trigger] idct2d_spec(dc_block(d, n), n)[r][c] as int
                    == sat15_spec(e * c0)
        }),
{
    let b = dc_block(d, n);
    let c0 = dct_coef(n, 0, 0);
    let e = sat15_spec(d as int * c0);
    let mid = row_pass_spec(b, n, false);
    // Row pass: the first row becomes constant `e`, the zero rows stay zero.
    assert forall|k: int| 0 <= k < n implies #[trigger] mid[0][k] as int == e by {
        lemma_dot_single(b[0], d, n, k, n);
        lemma_coef_dc_row_constant(n, k);
    }
    assert forall|r: int, k: int| 1 <= r < n && 0 <= k < n implies #[trigger] mid[r][k] == 0 by {
        lemma_dot_all_zero(b[r], n, k, n);
        assert(sat15_spec(0) == 0);
    }
    // Column pass: every column is `e` followed by zeros.
    assert forall|r: int, c: int|
        0 <= r < n && 0 <= c < n implies #[trigger] idct2d_spec(b, n)[r][c] as int == sat15_spec(
        (e as i64) as int * c0,
    ) by {
        let col = col_seq(mid, n, c);
        assert(col[0] as int == e);
        assert(forall|t: int| 1 <= t < col.len() ==> #[trigger] col[t] == 0);
        lemma_dot_single(col, e as i64, n, r, n);
        lemma_coef_dc_row_constant(n, r);
    }
    assert((e as i64) as int == e) by {
        assert(-(VAL_LIMIT as int) <= e <= VAL_LIMIT as int);
    }
}

/// Dot product of a line whose only non-zero entry is its first one.
proof fn lemma_dot_single(x: Seq<i64>, d: i64, n: int, k: int, cnt: int)
    requires
        1 <= cnt <= x.len(),
        x[0] == d,
        forall|i: int| 1 <= i < x.len() ==> x[i] == 0,
    ensures
        coef_dot(x, n, k, false, cnt) == d * dct_coef(n, 0, k),
    decreases cnt,
{
    if cnt == 1 {
        assert(coef_dot(x, n, k, false, 1) == coef_dot(x, n, k, false, 0) + x[0] * dct_coef(
            n,
            0,
            k,
        ));
    } else {
        lemma_dot_single(x, d, n, k, cnt - 1);
        assert(x[cnt - 1] == 0);
        assert(coef_dot(x, n, k, false, cnt) == coef_dot(x, n, k, false, cnt - 1) + x[cnt - 1]
            * dct_coef(n, cnt - 1, k));
        assert(0 * dct_coef(n, cnt - 1, k) == 0) by (nonlinear_arith);
    }
}

/// Dot product of an all-zero line.
proof fn lemma_dot_all_zero(x: Seq<i64>, n: int, k: int, cnt: int)
    requires
        0 <= cnt <= x.len(),
        forall|i: int| 0 <= i < x.len() ==> x[i] == 0,
    ensures
        coef_dot(x, n, k, false, cnt) == 0,
    decreases cnt,
{
    if cnt > 0 {
        lemma_dot_all_zero(x, n, k, cnt - 1);
    }
}

} // verus!