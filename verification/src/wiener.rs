//! Empirical Wiener shrinkage in the transform domain.
//!
//! For every coefficient position the gain is `v^2 / (v^2 + sigma^2)`, where
//! `v` is the corresponding coefficient of the basic estimate.  Gains are
//! held as 1.15 fixed-point integers; `sigma^2` is a 16.16 fixed-point
//! integer so that it lives in the same scale as a squared 8.8 coefficient.

use vstd::prelude::*;

use crate::dct::{block_wf, dct2d, dct2d_spec, idct2d, idct2d_spec, copy_block, dct_size_ok};
use crate::fixed::{all_bounded, clamp_spec, lemma_mul_bound, rsh15_sat, sat15_spec, VAL_LIMIT};
use crate::haar::group_wf;

verus! {

/// Wiener gain for basic-estimate coefficient `refv` and noise power `s2`,
/// as a 1.15 fixed-point integer in `[0, 2^15]`.
pub open spec fn wiener_gain_spec(refv: int, s2: int) -> int {
    clamp_spec((refv * refv * 32768) / (refv * refv + s2), 0, 32768)
}

/// A noisy coefficient after multiplication by the gain.
pub open spec fn shrink_val_spec(x: int, refv: int, s2: int) -> int {
    sat15_spec(x * wiener_gain_spec(refv, s2))
}

/// Executable Wiener gain.
pub fn wiener_gain(refv: i64, sigma2: i64) -> (g: i64)
    requires
        1 <= sigma2,
        -VAL_LIMIT <= refv <= VAL_LIMIT,
    ensures
        g as int == wiener_gain_spec(refv as int, sigma2 as int),
        0 <= g <= 32768,
{
    let a = refv as i128;
    proof {
        lemma_mul_bound(a as int, a as int, VAL_LIMIT as int, VAL_LIMIT as int);
    }
    let var = a * a;
    proof {
        assert(var >= 0) by (nonlinear_arith)
            requires
                var == a * a,
        ;
        lemma_mul_bound(
            var as int,
            32768,
            0x10000_0000_0000_0000_0000 as int,
            32768,
        );
    }
    let num = var * 32768;
    let den = var + sigma2 as i128;
    let q = match num.checked_div_euclid(den) {
        Some(q) => q,
        None => 0,  // unreachable: the divisor is positive and num is bounded
    };
    proof {
        crate::fixed::lemma_div_bound(
            num as int,
            den as int,
            0x8000_0000_0000_0000_0000_0000 as int,
        );
    }
    let c = if q < 0 {
        0
    } else if q > 32768 {
        32768
    } else {
        q
    };
    c as i64
}

/// Sum of squared gains over one row of basic-estimate coefficients.
pub open spec fn row_g2_spec(s: Seq<i64>, s2: int, cnt: int) -> int
    decreases cnt,
{
    if cnt <= 0 {
        0
    } else {
        row_g2_spec(s, s2, cnt - 1) + wiener_gain_spec(s[cnt - 1] as int, s2) * wiener_gain_spec(
            s[cnt - 1] as int,
            s2,
        )
    }
}

/// Sum of squared gains over a block.
pub open spec fn block_g2_spec(b: Seq<Seq<i64>>, s2: int, cnt: int) -> int
    decreases cnt,
{
    if cnt <= 0 {
        0
    } else {
        block_g2_spec(b, s2, cnt - 1) + row_g2_spec(b[cnt - 1], s2, b[cnt - 1].len() as int)
    }
}

/// Sum of squared gains over a group.
pub open spec fn group_g2_spec(g: Seq<Seq<Seq<i64>>>, s2: int, cnt: int) -> int
    decreases cnt,
{
    if cnt <= 0 {
        0
    } else {
        group_g2_spec(g, s2, cnt - 1) + block_g2_spec(g[cnt - 1], s2, g[cnt - 1].len() as int)
    }
}

/// Range of partial row sums: between 0 and `cnt * 2^30`.
pub proof fn lemma_row_g2_range(s: Seq<i64>, s2: int, cnt: int)
    requires
        0 <= cnt,
    ensures
        0 <= row_g2_spec(s, s2, cnt) <= cnt * 0x4000_0000,
    decreases cnt,
{
    if cnt > 0 {
        lemma_row_g2_range(s, s2, cnt - 1);
        let g = wiener_gain_spec(s[cnt - 1] as int, s2);
        lemma_mul_bound(g, g, 32768, 32768);
        assert((cnt - 1) * 0x4000_0000 + 0x4000_0000 == cnt * 0x4000_0000) by (nonlinear_arith);
        assert(g * g >= 0) by (nonlinear_arith)
            requires
                0 <= g,
        ;
    }
}

/// Range of partial block sums, for blocks whose rows have length at most 8.
pub proof fn lemma_block_g2_range(b: Seq<Seq<i64>>, s2: int, cnt: int)
    requires
        0 <= cnt,
        forall|r: int| 0 <= r < cnt ==> (#[trigger] b[r]).len() <= 8,
    ensures
        0 <= block_g2_spec(b, s2, cnt) <= cnt * 8 * 0x4000_0000,
    decreases cnt,
{
    if cnt > 0 {
        lemma_block_g2_range(b, s2, cnt - 1);
        lemma_row_g2_range(b[cnt - 1], s2, b[cnt - 1].len() as int);
        assert(row_g2_spec(b[cnt - 1], s2, b[cnt - 1].len() as int) <= 8 * 0x4000_0000) by {
            assert(b[cnt - 1].len() as int * 0x4000_0000 <= 8 * 0x4000_0000) by (nonlinear_arith)
                requires
                    b[cnt - 1].len() as int <= 8,
            ;
        }
        assert((cnt - 1) * 8 * 0x4000_0000 + 8 * 0x4000_0000 == cnt * 8 * 0x4000_0000)
            by (nonlinear_arith);
    }
}

/// Shrink one row of noisy coefficients against the matching row of the
/// basic estimate; returns the new row and the partial sum of squared gains.
fn shrink_row(noisy: &Vec<i64>, reference: &Vec<i64>, sigma2: i64) -> (r: (Vec<i64>, u64))
    requires
        1 <= sigma2,
        noisy.len() == reference.len(),
        noisy.len() <= 8,
        all_bounded(noisy@, VAL_LIMIT as int),
        all_bounded(reference@, VAL_LIMIT as int),
    ensures
        r.0@.len() == noisy.len(),
        forall|i: int|
            0 <= i < noisy.len() ==> r.0@[i] as int == shrink_val_spec(
                noisy@[i] as int,
                reference@[i] as int,
                sigma2 as int,
            ),
        all_bounded(r.0@, VAL_LIMIT as int),
        r.1 as int == row_g2_spec(reference@, sigma2 as int, noisy.len() as int),
{
    let n = noisy.len();
    let mut out: Vec<i64> = Vec::new();
    let mut g2: u64 = 0;
    let mut i: usize = 0;
    while i < n
        invariant
            1 <= sigma2,
            n == noisy.len(),
            n == reference.len(),
            n <= 8,
            all_bounded(noisy@, VAL_LIMIT as int),
            all_bounded(reference@, VAL_LIMIT as int),
            i <= n,
            out@.len() == i,
            forall|k: int|
                0 <= k < i ==> out@[k] as int == shrink_val_spec(
                    noisy@[k] as int,
                    reference@[k] as int,
                    sigma2 as int,
                ),
            all_bounded(out@, VAL_LIMIT as int),
            g2 as int == row_g2_spec(reference@, sigma2 as int, i as int),
            g2 as int <= i as int * 0x4000_0000,
        decreases n - i,
    {
        let g = wiener_gain(reference[i], sigma2);
        proof {
            lemma_mul_bound(noisy@[i as int] as int, g as int, VAL_LIMIT as int, 32768);
            lemma_mul_bound(g as int, g as int, 32768, 32768);
            lemma_row_g2_range(reference@, sigma2 as int, i as int);
            assert(i as int * 0x4000_0000 + 0x4000_0000 == (i as int + 1) * 0x4000_0000)
                by (nonlinear_arith);
            assert(g as int * g as int >= 0) by (nonlinear_arith)
                requires
                    0 <= g as int,
            ;
        }
        let v = rsh15_sat(noisy[i] * g);
        out.push(v);
        g2 = g2 + ((g * g) as u64);
        i = i + 1;
    }
    (out, g2)
}

/// Shrink a whole block in place; returns the sum of squared gains.
pub fn wiener_shrink_block(noisy: &mut Vec<Vec<i64>>, reference: &Vec<Vec<i64>>, sigma2: i64) -> (g2:
    u64)
    requires
        1 <= sigma2,
        old(noisy).len() == reference.len(),
        old(noisy).len() <= 8,
        forall|r: int|
            0 <= r < old(noisy).len() ==> (#[trigger] old(noisy)@[r])@.len() == reference@[r]@.len()
                && old(noisy)@[r]@.len() <= 8,
        forall|r: int|
            0 <= r < old(noisy).len() ==> all_bounded((#[trigger] old(noisy)@[r])@, VAL_LIMIT as int)
                && all_bounded(reference@[r]@, VAL_LIMIT as int),
    ensures
        final(noisy).len() == old(noisy).len(),
        forall|r: int|
            0 <= r < old(noisy).len() ==> (#[trigger] final(noisy)@[r])@.len() == old(noisy)@[r]@.len(),
        forall|r: int, c: int|
            0 <= r < old(noisy).len() && 0 <= c < old(noisy)@[r]@.len() ==> final(noisy)@[r]@[c] as int == shrink_val_spec(
                old(noisy)@[r]@[c] as int,
                reference@[r]@[c] as int,
                sigma2 as int,
            ),
        forall|r: int|
            0 <= r < old(noisy).len() ==> all_bounded((#[trigger] final(noisy)@[r])@, VAL_LIMIT as int),
        g2 as int == block_g2_spec(
            reference.deep_view(),
            sigma2 as int,
            old(noisy).len() as int,
        ),
{
    let n = noisy.len();
    let mut g2: u64 = 0;
    let mut r: usize = 0;
    while r < n
        invariant
            1 <= sigma2,
            noisy.len() == n,
            reference.len() == n,
            n <= 8,
            forall|rr: int|
                r <= rr < n ==> (#[trigger] noisy@[rr])@ == old(noisy)@[rr]@,
            forall|rr: int|
                0 <= rr < n ==> (#[trigger] old(noisy)@[rr])@.len() == reference@[rr]@.len() && old(noisy)@[rr]@.len() <= 8,
            forall|rr: int|
                0 <= rr < n ==> all_bounded((#[trigger] old(noisy)@[rr])@, VAL_LIMIT as int)
                    && all_bounded(reference@[rr]@, VAL_LIMIT as int),
            r <= n,
            forall|rr: int|
                0 <= rr < r ==> (#[trigger] noisy@[rr])@.len() == old(noisy)@[rr]@.len(),
            forall|rr: int, c: int|
                0 <= rr < r && 0 <= c < old(noisy)@[rr]@.len() ==> noisy@[rr]@[c] as int
                    == shrink_val_spec(
                    old(noisy)@[rr]@[c] as int,
                    reference@[rr]@[c] as int,
                    sigma2 as int,
                ),
            forall|rr: int|
                0 <= rr < r ==> all_bounded((#[trigger] noisy@[rr])@, VAL_LIMIT as int),
            g2 as int == block_g2_spec(reference.deep_view(), sigma2 as int, r as int),
            g2 as int <= r as int * 8 * 0x4000_0000,
        decreases n - r,
    {
        let (row, rg2) = shrink_row(&noisy[r], &reference[r], sigma2);
        proof {
            assert(reference.deep_view()[r as int] =~= reference@[r as int]@);
            lemma_row_g2_range(reference@[r as int]@, sigma2 as int, reference@[r as int]@.len() as int);
            assert(r as int * 8 * 0x4000_0000 + 8 * 0x4000_0000 == (r as int + 1) * 8
                * 0x4000_0000) by (nonlinear_arith);
            assert(rg2 as int <= 8 * 0x4000_0000) by {
                assert(reference@[r as int]@.len() as int * 0x4000_0000 <= 8 * 0x4000_0000)
                    by (nonlinear_arith)
                    requires
                        reference@[r as int]@.len() as int <= 8,
                ;
            }
        }
        noisy.set(r, row);
        g2 = g2 + rg2;
        r = r + 1;
    }
    proof {
        assert(g2 as int == block_g2_spec(
            reference.deep_view(),
            sigma2 as int,
            n as int,
        ));
    }
    g2
}

/// Apply the single-block Wiener filter: transform both blocks, multiply the
/// noisy coefficients by the per-coefficient gains computed from the basic
/// estimate, and invert the transform.
pub fn wiener_filter_block(noisy: &mut Vec<Vec<i64>>, reference: &Vec<Vec<i64>>, sigma2: i64)
    requires
        1 <= sigma2,
        dct_size_ok(old(noisy).len() as int),
        old(noisy).len() == reference.len(),
        block_wf(old(noisy).deep_view(), old(noisy).len() as int),
        block_wf(reference.deep_view(), reference.len() as int),
    ensures
        final(noisy).len() == old(noisy).len(),
        block_wf(final(noisy).deep_view(), old(noisy).len() as int),
        final(noisy).deep_view() == idct2d_spec(
            shrink_block_spec(
                dct2d_spec(old(noisy).deep_view(), old(noisy).len() as int),
                dct2d_spec(reference.deep_view(), reference.len() as int),
                sigma2 as int,
                old(noisy).len() as int,
            ),
            old(noisy).len() as int,
        ),
{
    let n = noisy.len();
    dct2d(noisy);
    let mut refd = copy_block(reference);
    dct2d(&mut refd);
    let ghost nd = noisy.deep_view();
    let ghost rd = refd.deep_view();
    proof {
        assert forall|r: int| 0 <= r < n implies ((#[trigger] noisy@[r])@.len() == n
            && all_bounded(noisy@[r]@, VAL_LIMIT as int)) by {
            assert(nd[r] =~= noisy@[r]@);
            assert(block_wf(nd, n as int));
        }
        assert forall|r: int| 0 <= r < n implies ((#[trigger] refd@[r])@.len() == n
            && all_bounded(refd@[r]@, VAL_LIMIT as int)) by {
            assert(rd[r] =~= refd@[r]@);
            assert(block_wf(rd, n as int));
        }
    }
    wiener_shrink_block(noisy, &refd, sigma2);
    proof {
        assert(noisy.deep_view() =~~= shrink_block_spec(nd, rd, sigma2 as int, n as int));
    }
    idct2d(noisy);
}

/// A block shrunk elementwise against a reference block.
pub open spec fn shrink_block_spec(b: Seq<Seq<i64>>, refb: Seq<Seq<i64>>, s2: int, n: int) -> Seq<
    Seq<i64>,
> {
    Seq::new(
        n as nat,
        |r: int|
            Seq::new(
                b[r].len(),
                |c: int| shrink_val_spec(b[r][c] as int, refb[r][c] as int, s2) as i64,
            ),
    )
}

/// Apply the single-block Wiener filter to aligned slices of blocks.
pub fn wiener_filter_blocks(
    noisy_blocks: &mut Vec<Vec<Vec<i64>>>,
    reference_blocks: &Vec<Vec<Vec<i64>>>,
    sigma2: i64,
    block_size: usize,
)
    requires
        1 <= sigma2,
        dct_size_ok(block_size as int),
        old(noisy_blocks).len() == reference_blocks.len(),
        group_wf(
            old(noisy_blocks).deep_view(),
            old(noisy_blocks).len() as int,
            block_size as int,
        ),
        group_wf(
            reference_blocks.deep_view(),
            reference_blocks.len() as int,
            block_size as int,
        ),
    ensures
        final(noisy_blocks).len() == old(noisy_blocks).len(),
        group_wf(
            final(noisy_blocks).deep_view(),
            old(noisy_blocks).len() as int,
            block_size as int,
        ),
        forall|k: int|
            0 <= k < old(noisy_blocks).len() ==> final(noisy_blocks).deep_view()[k] == idct2d_spec(
                shrink_block_spec(
                    dct2d_spec(old(noisy_blocks).deep_view()[k], block_size as int),
                    dct2d_spec(reference_blocks.deep_view()[k], block_size as int),
                    sigma2 as int,
                    block_size as int,
                ),
                block_size as int,
            ),
{
    let n = noisy_blocks.len();
    proof {
        assert forall|kk: int|
            0 <= kk < n implies crate::dct::block_wf(
            (#[trigger] noisy_blocks@[kk]).deep_view(),
            block_size as int,
        ) by {
            assert(noisy_blocks.deep_view()[kk] =~= noisy_blocks@[kk].deep_view());
        }
        assert forall|kk: int|
            0 <= kk < n implies crate::dct::block_wf(
            (#[trigger] reference_blocks@[kk]).deep_view(),
            block_size as int,
        ) by {
            assert(reference_blocks.deep_view()[kk] =~= reference_blocks@[kk].deep_view());
        }
    }
    let mut k: usize = 0;
    while k < n
        invariant
            1 <= sigma2,
            dct_size_ok(block_size as int),
            noisy_blocks.len() == n,
            reference_blocks.len() == n,
            forall|kk: int|
                0 <= kk < n ==> crate::dct::block_wf(
                    (#[trigger] reference_blocks@[kk]).deep_view(),
                    block_size as int,
                ),
            group_wf(reference_blocks.deep_view(), n as int, block_size as int),
            k <= n,
            forall|kk: int| k <= kk < n ==> #[trigger] noisy_blocks@[kk] == old(noisy_blocks)@[kk],
            forall|kk: int|
                0 <= kk < n ==> crate::dct::block_wf(
                    (#[trigger] old(noisy_blocks)@[kk]).deep_view(),
                    block_size as int,
                ),
            forall|kk: int|
                0 <= kk < k ==> (#[trigger] noisy_blocks@[kk]).deep_view() == idct2d_spec(
                    shrink_block_spec(
                        dct2d_spec(old(noisy_blocks)@[kk].deep_view(), block_size as int),
                        dct2d_spec(reference_blocks@[kk].deep_view(), block_size as int),
                        sigma2 as int,
                        block_size as int,
                    ),
                    block_size as int,
                ),
            forall|kk: int|
                0 <= kk < k ==> crate::dct::block_wf(
                    (#[trigger] noisy_blocks@[kk]).deep_view(),
                    block_size as int,
                ),
        decreases n - k,
    {
        let mut blk = copy_block(&noisy_blocks[k]);
        proof {
            assert(reference_blocks.deep_view()[k as int] =~= reference_blocks@[k as int].deep_view());
            assert(blk.len() == block_size) by {
                assert(crate::dct::block_wf(old(noisy_blocks)@[k as int].deep_view(), block_size as int));
            }
        }
        wiener_filter_block(&mut blk, &reference_blocks[k], sigma2);
        noisy_blocks.set(k, blk);
        k = k + 1;
    }
    proof {
        assert(forall|kk: int|
            0 <= kk < n ==> final(noisy_blocks).deep_view()[kk] =~= (
            #[trigger] final(noisy_blocks)@[kk]).deep_view());
        assert(forall|kk: int|
            0 <= kk < n ==> old(noisy_blocks).deep_view()[kk] =~= (
            #[trigger] old(noisy_blocks)@[kk]).deep_view());
    }
}

} // verus!
