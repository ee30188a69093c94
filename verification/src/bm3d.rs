//! The two-pass denoising pipeline: a hard-thresholding pass that builds a
//! basic estimate, and a Wiener pass that refines it.

use vstd::prelude::*;

use crate::aggregate::{aggregate, Accumulator, COVERS_MAX, W_CAP};
use crate::dct::{copy_block, dct2d, dct_size_ok, idct2d};
use crate::error::ImageProcessingError;
use crate::fixed::{clamp_spec, VAL_LIMIT};
use crate::group::form_group;
use crate::fixed::sat15_spec;
use crate::haar::{group_wf, stack_size_ok, wht_across, wht_group_spec};
use crate::image::{Bm3dImage, Plane, MAX_SIDE, PIX_MAX_Q8};
use crate::matching::{extract_patch, find_similar_patches, find_ok, is_cand, is_patch_of,
    lemma_window_props, window_spec};
use crate::params::Bm3dParams;
use crate::wiener::wiener_shrink_block;

verus! {

/// The anchors of a matched group, in group order.
pub open spec fn anchors_of(ps: Seq<crate::matching::Patch>) -> Seq<(usize, usize)> {
    Seq::new(ps.len(), |k: int| ps[k].top_left)
}

/// The configuration is acceptable for an image of the given dimensions.
pub open spec fn params_valid(p: Bm3dParams, w: int, h: int) -> bool {
    &&& 1 <= p.sigma_q8 <= 0x1_0000
    &&& (p.block_size == 4 || p.block_size == 8)
    &&& p.block_size < p.window1 <= MAX_SIDE
    &&& p.block_size < p.window2 <= MAX_SIDE
    &&& p.window1 <= w && p.window1 <= h
    &&& p.window2 <= w && p.window2 <= h
    &&& 1 <= p.step1 <= p.block_size
    &&& 1 <= p.step2 <= p.block_size
    &&& 1 <= p.max_match1
    &&& 1 <= p.max_match2
    &&& p.mix_q8 <= 256
    &&& p.block_size <= w
    &&& p.block_size <= h
}

/// Check the configuration against the image dimensions.  Rejected
/// configurations are exactly those outside [`params_valid`].
pub fn validate_params(p: &Bm3dParams, width: usize, height: usize) -> (r: Result<
    (),
    ImageProcessingError,
>)
    requires
        width <= MAX_SIDE,
        height <= MAX_SIDE,
    ensures
        r is Ok <==> params_valid(*p, width as int, height as int),
        r matches Err(e) ==> e is InvalidParameter,
{
    if p.sigma_q8 < 1 || p.sigma_q8 > 0x1_0000 {
        return Err(
            ImageProcessingError::InvalidParameter("sigma must lie between 1/256 and 256"),
        );
    }
    if !(p.block_size == 4 || p.block_size == 8) {
        return Err(ImageProcessingError::InvalidParameter("block size must be 4 or 8"));
    }
    if !(p.window1 > p.block_size && p.window1 <= MAX_SIDE) || !(p.window2 > p.block_size
        && p.window2 <= MAX_SIDE) {
        return Err(
            ImageProcessingError::InvalidParameter("window size must exceed the block size"),
        );
    }
    if p.step1 < 1 || p.step1 > p.block_size || p.step2 < 1 || p.step2 > p.block_size {
        return Err(
            ImageProcessingError::InvalidParameter("step must be between 1 and the block size"),
        );
    }
    if p.max_match1 < 1 || p.max_match2 < 1 {
        return Err(ImageProcessingError::InvalidParameter("group size limit must be positive"));
    }
    if p.mix_q8 > 256 {
        return Err(ImageProcessingError::InvalidParameter("mix must lie between 0 and 1"));
    }
    if width < p.block_size || height < p.block_size {
        return Err(
            ImageProcessingError::InvalidParameter("image smaller than one block"),
        );
    }
    if p.window1 > width || p.window1 > height || p.window2 > width || p.window2 > height {
        return Err(
            ImageProcessingError::InvalidParameter("window size exceeds the image"),
        );
    }
    Ok(())
}

/// The anchor positions along one axis from `x` on: every `step` positions
/// up to `limit`, then `limit` itself.
pub open spec fn grid_from(x: int, limit: int, step: int) -> Seq<usize>
    decreases limit - x,
{
    if x >= limit || step < 1 {
        seq![limit as usize]
    } else {
        seq![x as usize] + grid_from(
            if x + step <= limit {
                x + step
            } else {
                limit
            },
            limit,
            step,
        )
    }
}

/// Some anchor of `g` covers position `px` within a window of `step`.
pub open spec fn grid_covers(g: Seq<usize>, px: int, step: int) -> bool {
    exists|k: int| 0 <= k < g.len() && #[trigger] g[k] <= px < g[k] + step
}

/// Reference anchors along one axis: every multiple of `step` below `limit`,
/// and `limit` itself, in increasing order.
pub fn anchor_grid(limit: usize, step: usize) -> (g: Vec<usize>)
    requires
        1 <= step <= MAX_SIDE,
        limit <= MAX_SIDE,
    ensures
        g@.len() >= 1,
        forall|k: int| 0 <= k < g@.len() ==> #[trigger] g@[k] <= limit,
        g@[g@.len() - 1] == limit,
        forall|px: int| 0 <= px < limit ==> #[trigger] grid_covers(g@, px, step as int),
        g@.len() <= limit + 1,
        g@ == grid_from(0, limit as int, step as int),
{
    let mut g: Vec<usize> = Vec::new();
    let mut x: usize = 0;
    while x < limit
        invariant
            1 <= step <= MAX_SIDE,
            x <= limit,
            limit <= MAX_SIDE,
            g@.len() <= x,
            forall|k: int| 0 <= k < g@.len() ==> #[trigger] g@[k] < limit,
            forall|px: int| 0 <= px < x ==> #[trigger] grid_covers(g@, px, step as int),
            grid_from(0, limit as int, step as int) =~= g@ + grid_from(
                x as int,
                limit as int,
                step as int,
            ),
        decreases limit - x,
    {
        let ghost g0 = g@;
        g.push(x);
        let nx = if x + step <= limit {
            x + step
        } else {
            limit
        };
        proof {
            assert(grid_from(x as int, limit as int, step as int) =~= seq![x] + grid_from(
                nx as int,
                limit as int,
                step as int,
            ));
            assert(grid_from(0, limit as int, step as int) =~= g@ + grid_from(
                nx as int,
                limit as int,
                step as int,
            ));
            assert forall|px: int| 0 <= px < nx implies #[trigger] grid_covers(
                g@,
                px,
                step as int,
            ) by {
                if px < x {
                    assert(grid_covers(g0, px, step as int));
                    let k = choose|k: int| 0 <= k < g0.len() && #[trigger] g0[k] <= px < g0[k] + step;
                    assert(g@[k] == g0[k]);
                    assert(0 <= k < g@.len() && g@[k] <= px < g@[k] + step);
                } else {
                    let k = g@.len() - 1;
                    assert(g@[k] == x);
                    assert(0 <= k < g@.len() && g@[k] <= px < g@[k] + step);
                }
            }
        }
        x = nx;
    }
    let ghost g1 = g@;
    g.push(limit);
    proof {
        assert(grid_from(limit as int, limit as int, step as int) =~= seq![limit]);
        assert(g@ =~= grid_from(0, limit as int, step as int));
        assert forall|px: int| 0 <= px < limit implies #[trigger] grid_covers(
            g@,
            px,
            step as int,
        ) by {
            assert(grid_covers(g1, px, step as int));
            let k = choose|k: int| 0 <= k < g1.len() && #[trigger] g1[k] <= px < g1[k] + step;
            assert(g@[k] == g1[k]);
            assert(0 <= k < g@.len() && g@[k] <= px < g@[k] + step);
        }
    }
    g
}

/// Aggregation weight of the hard-thresholding pass: `1 / (R * sigma^2)` in
/// fixed point, kept within `[1, W_CAP]`.  A group that retained nothing
/// gets the smallest representable weight, so it cannot dominate the
/// aggregation.
pub open spec fn hard_weight_spec(retained: int, s2: int) -> int {
    if retained < 1 {
        1
    } else {
        clamp_spec(0x100_0000_0000int / (retained * s2), 1, W_CAP as int)
    }
}

/// Executable form of [`hard_weight_spec`].
pub fn hard_weight(retained: usize, sigma2_q16: u64) -> (w: u64)
    requires
        1 <= sigma2_q16 <= 0x1_0000_0000,
        retained <= 0x10000,
    ensures
        w as int == hard_weight_spec(retained as int, sigma2_q16 as int),
        1 <= w <= W_CAP,
{
    if retained < 1 {
        return 1;
    }
    let rr: u64 = retained as u64;
    proof {
        assert(1 <= rr as int * sigma2_q16 as int <= 0x1_0000_0000_0000) by (nonlinear_arith)
            requires
                1 <= rr as int <= 0x10000,
                1 <= sigma2_q16 as int <= 0x1_0000_0000,
        ;
    }
    let den = rr * sigma2_q16;
    let q = 0x100_0000_0000u64 / den;
    if q < 1 {
        1
    } else if q > W_CAP {
        W_CAP
    } else {
        q
    }
}

/// Aggregation weight of the Wiener pass: `1 / (sigma^2 * sum of squared
/// gains)` in fixed point, kept within `[1, W_CAP]`.  A group whose gains
/// all vanished gets the smallest representable weight, so it cannot
/// dominate the aggregation.
pub open spec fn wiener_weight_spec(g2: int, s2: int) -> int {
    if g2 < 1 {
        1
    } else {
        let d = (s2 * g2) / 0x4000_0000;
        let dd = if d < 1 {
            1
        } else {
            d
        };
        clamp_spec(0x100_0000_0000int / dd, 1, W_CAP as int)
    }
}

/// Executable form of [`wiener_weight_spec`].
pub fn wiener_weight(g2: u64, sigma2_q16: u64) -> (w: u64)
    requires
        1 <= sigma2_q16 <= 0x1_0000_0000,
        g2 <= 0x100_0000_0000,
    ensures
        w as int == wiener_weight_spec(g2 as int, sigma2_q16 as int),
        1 <= w <= W_CAP,
{
    if g2 < 1 {
        return 1;
    }
    proof {
        crate::fixed::lemma_mul_le(sigma2_q16 as int, g2 as int, 0x1_0000_0000, 0x100_0000_0000);
    }
    let prod = (sigma2_q16 as u128) * (g2 as u128);
    let d = prod / 0x4000_0000;
    let dd: u128 = if d < 1 {
        1
    } else {
        d
    };
    let q = 0x100_0000_0000u128 / dd;
    if q < 1 {
        1
    } else if q > W_CAP as u128 {
        W_CAP
    } else {
        q as u64
    }
}

/// The per-layer 2-D transform of a whole group.
pub open spec fn layers_spec(g: Seq<Seq<Seq<i64>>>, n: int, b: int, fwd: bool) -> Seq<
    Seq<Seq<i64>>,
> {
    Seq::new(
        n as nat,
        |k: int|
            if fwd {
                crate::dct::dct2d_spec(g[k], b)
            } else {
                crate::dct::idct2d_spec(g[k], b)
            },
    )
}

/// Apply the forward 2-D transform to every layer of a group, in place; the
/// inverse direction is selected by `fwd`.
fn transform_layers(group: &mut Vec<Vec<Vec<i64>>>, b: usize, fwd: bool)
    requires
        dct_size_ok(b as int),
        group_wf(old(group).deep_view(), old(group).len() as int, b as int),
    ensures
        final(group).len() == old(group).len(),
        group_wf(final(group).deep_view(), old(group).len() as int, b as int),
        final(group).deep_view() == layers_spec(
            old(group).deep_view(),
            old(group).len() as int,
            b as int,
            fwd,
        ),
{
    let n = group.len();
    let ghost orig = group.deep_view();
    proof {
        assert forall|k: int|
            0 <= k < n implies crate::dct::block_wf(
            (#[trigger] group@[k]).deep_view(),
            b as int,
        ) by {
            assert(group.deep_view()[k] =~= group@[k].deep_view());
        }
    }
    let mut k: usize = 0;
    while k < n
        invariant
            dct_size_ok(b as int),
            group.len() == n,
            orig.len() == n,
            group_wf(orig, n as int, b as int),
            forall|kk: int|
                0 <= kk < n ==> crate::dct::block_wf(
                    (#[trigger] group@[kk]).deep_view(),
                    b as int,
                ),
            k <= n,
            forall|kk: int| k <= kk < n ==> (#[trigger] group@[kk]).deep_view() =~= orig[kk],
            forall|kk: int|
                0 <= kk < k ==> (#[trigger] group@[kk]).deep_view() == (if fwd {
                    crate::dct::dct2d_spec(orig[kk], b as int)
                } else {
                    crate::dct::idct2d_spec(orig[kk], b as int)
                }),
        decreases n - k,
    {
        let ghost pre = group@;
        let mut blk = copy_block(&group[k]);
        proof {
            assert(blk.deep_view() =~= group@[k as int].deep_view());
            assert(blk.deep_view() =~= orig[k as int]);
            assert(blk.len() == b);
        }
        if fwd {
            dct2d(&mut blk);
        } else {
            idct2d(&mut blk);
        }
        group.set(k, blk);
        proof {
            assert forall|kk: int|
                0 <= kk < n && kk != k as int implies (#[trigger] group@[kk]).deep_view()
                == pre[kk].deep_view() by {
                assert(group@[kk] == pre[kk]);
            }
        }
        k = k + 1;
    }
    proof {
        assert(group.deep_view() =~~= layers_spec(orig, n as int, b as int, fwd));
        assert forall|k: int|
            0 <= k < n implies crate::dct::block_wf(
            #[trigger] group.deep_view()[k],
            b as int,
        ) by {
            assert(group.deep_view()[k] =~= group@[k].deep_view());
        }
    }
}

/// A whole group after thresholding every layer.
pub open spec fn group_thr_spec(g: Seq<Seq<Seq<i64>>>, n: int, t: int) -> Seq<Seq<Seq<i64>>> {
    Seq::new(n as nat, |k: int| crate::hard::block_thr_spec(g[k], t))
}

/// Total number of retained coefficients over the first `cnt` layers.
pub open spec fn group_retained_spec(g: Seq<Seq<Seq<i64>>>, t: int, cnt: int) -> int
    decreases cnt,
{
    if cnt <= 0 {
        0
    } else {
        group_retained_spec(g, t, cnt - 1) + crate::hard::block_retained_spec(g[cnt - 1], t)
    }
}

/// Hard-threshold every layer of a group in place and report the total
/// number of retained coefficients.
fn threshold_layers(group: &mut Vec<Vec<Vec<i64>>>, b: usize, t: i64) -> (retained: usize)
    requires
        dct_size_ok(b as int),
        t >= 0,
        old(group).len() <= 16,
        group_wf(old(group).deep_view(), old(group).len() as int, b as int),
    ensures
        final(group).len() == old(group).len(),
        group_wf(final(group).deep_view(), old(group).len() as int, b as int),
        final(group).deep_view() == group_thr_spec(
            old(group).deep_view(),
            old(group).len() as int,
            t as int,
        ),
        retained as int == group_retained_spec(
            old(group).deep_view(),
            t as int,
            old(group).len() as int,
        ),
        retained <= 0x10000,
{
    let n = group.len();
    let ghost orig = group.deep_view();
    proof {
        assert forall|k: int|
            0 <= k < n implies crate::dct::block_wf(
            (#[trigger] group@[k]).deep_view(),
            b as int,
        ) by {
            assert(group.deep_view()[k] =~= group@[k].deep_view());
        }
    }
    let mut retained: usize = 0;
    let mut k: usize = 0;
    while k < n
        invariant
            dct_size_ok(b as int),
            t >= 0,
            group.len() == n,
            orig.len() == n,
            group_wf(orig, n as int, b as int),
            n <= 16,
            k <= n,
            retained <= k * 64,
            retained as int == group_retained_spec(orig, t as int, k as int),
            forall|kk: int|
                0 <= kk < n ==> crate::dct::block_wf(
                    (#[trigger] group@[kk]).deep_view(),
                    b as int,
                ),
            forall|kk: int| k <= kk < n ==> (#[trigger] group@[kk]).deep_view() =~= orig[kk],
            forall|kk: int|
                0 <= kk < k ==> (#[trigger] group@[kk]).deep_view() == crate::hard::block_thr_spec(
                    orig[kk],
                    t as int,
                ),
        decreases n - k,
    {
        let ghost prevec = group@;
        let mut blk = copy_block(&group[k]);
        proof {
            assert(blk.deep_view() =~= group@[k as int].deep_view());
            assert(blk.deep_view() =~= orig[k as int]);
            assert(blk.len() == b);
            assert forall|r: int| 0 <= r < b implies (#[trigger] blk@[r])@.len() == b by {
                assert(blk.deep_view()[r] =~= blk@[r]@);
            }
        }
        let ghost pre = blk.deep_view();
        let cnt = crate::hard::hard_threshold_count(&mut blk, t);
        proof {
            assert forall|r: int| 0 <= r < b implies (#[trigger] pre[r]).len() <= 8 by {
                assert(crate::dct::block_wf(pre, b as int));
            }
            crate::hard::lemma_block_retained_le(pre, t as int, 8);
            assert(cnt <= 64);
            assert forall|r: int|
                0 <= r < b implies (#[trigger] blk.deep_view()[r]).len() == b
                && crate::fixed::all_bounded(blk.deep_view()[r], VAL_LIMIT as int) by {
                assert(blk.deep_view()[r] =~= crate::hard::row_thr_spec(pre[r], t as int));
            }
            assert(crate::dct::block_wf(blk.deep_view(), b as int));
            assert(blk.deep_view() =~~= crate::hard::block_thr_spec(orig[k as int], t as int));
        }
        group.set(k, blk);
        proof {
            assert(k as int * 64 + 64 == (k as int + 1) * 64) by (nonlinear_arith);
            assert((k as int + 1) * 64 <= 16 * 64) by (nonlinear_arith)
                requires
                    k as int + 1 <= 16,
            ;
            assert forall|kk: int|
                0 <= kk < n && kk != k as int implies (#[trigger] group@[kk]).deep_view()
                == prevec[kk].deep_view() by {
                assert(group@[kk] == prevec[kk]);
            }
        }
        retained = retained + cnt;
        k = k + 1;
    }
    proof {
        assert(group.deep_view() =~~= group_thr_spec(orig, n as int, t as int));
        assert forall|k: int|
            0 <= k < n implies crate::dct::block_wf(
            #[trigger] group.deep_view()[k],
            b as int,
        ) by {
            assert(group.deep_view()[k] =~= group@[k].deep_view());
        }
        assert(retained as int <= 16 * 64) by (nonlinear_arith)
            requires
                retained as int <= n as int * 64,
                n as int <= 16,
        ;
    }
    retained
}

/// Fold every layer of a filtered group into the accumulator at its anchor.
fn aggregate_group(
    acc: &mut Accumulator,
    group: &Vec<Vec<Vec<i64>>>,
    patches: &Vec<crate::matching::Patch>,
    rp: (usize, usize),
    b: usize,
    window: usize,
    w: u64,
)
    requires
        old(acc).wf(),
        1 <= w <= W_CAP,
        old(acc).covers + 16 <= COVERS_MAX,
        dct_size_ok(b as int),
        b < window,
        group@.len() == patches@.len(),
        group@.len() >= 1,
        group@.len() <= 16,
        group_wf(group.deep_view(), group@.len() as int, b as int),
        patches@[0].top_left == rp,
        rp.0 + b <= old(acc).width,
        rp.1 + b <= old(acc).height,
        old(acc).width <= MAX_SIDE,
        old(acc).height <= MAX_SIDE,
        forall|k: int|
            1 <= k < patches@.len() ==> ({
                let win = window_spec(
                    old(acc).width as int,
                    old(acc).height as int,
                    rp.0 as int,
                    rp.1 as int,
                    b as int,
                    window as int,
                );
                &&& win.0 <= (#[trigger] patches@[k]).top_left.0 as int
                &&& patches@[k].top_left.0 as int + b <= win.2
                &&& win.1 <= patches@[k].top_left.1 as int
                &&& patches@[k].top_left.1 as int + b <= win.3
            }),
    ensures
        final(acc).wf(),
        final(acc).width == old(acc).width,
        final(acc).height == old(acc).height,
        final(acc).covers <= old(acc).covers + 16,
        forall|px: int, py: int|
            0 <= px < old(acc).width && 0 <= py < old(acc).height ==> final(acc).den_at(px, py)
                >= old(acc).den_at(px, py),
        forall|px: int, py: int|
            rp.0 <= px < rp.0 + b && rp.1 <= py < rp.1 + b ==> final(acc).den_at(px, py) >= 1,
        final(acc).num@ == crate::aggregate::add_group_num_spec(
            old(acc).num@,
            group.deep_view(),
            anchors_of(patches@),
            b as int,
            w as int,
            old(acc).width as int,
            group@.len() as int,
        ),
        final(acc).den@ == crate::aggregate::add_group_den_spec(
            old(acc).den@,
            anchors_of(patches@),
            b as int,
            w as int,
            old(acc).width as int,
            group@.len() as int,
        ),
{
    let n = group.len();
    let ghost acc0 = *acc;
    proof {
        lemma_window_props(
            acc.width as int,
            acc.height as int,
            rp.0 as int,
            rp.1 as int,
            b as int,
            window as int,
        );
    }
    let mut k: usize = 0;
    while k < n
        invariant
            acc.wf(),
            acc.width == acc0.width,
            acc.height == acc0.height,
            1 <= w <= W_CAP,
            acc0.covers + 16 <= COVERS_MAX,
            dct_size_ok(b as int),
            b < window,
            n == group@.len(),
            n == patches@.len(),
            1 <= n <= 16,
            group_wf(group.deep_view(), n as int, b as int),
            patches@[0].top_left == rp,
            rp.0 + b <= acc0.width,
            rp.1 + b <= acc0.height,
            acc0.width <= MAX_SIDE,
            acc0.height <= MAX_SIDE,
            forall|kk: int|
                1 <= kk < n ==> ({
                    let win = window_spec(
                        acc0.width as int,
                        acc0.height as int,
                        rp.0 as int,
                        rp.1 as int,
                        b as int,
                        window as int,
                    );
                    &&& win.0 <= (#[trigger] patches@[kk]).top_left.0 as int
                    &&& patches@[kk].top_left.0 as int + b <= win.2
                    &&& win.1 <= patches@[kk].top_left.1 as int
                    &&& patches@[kk].top_left.1 as int + b <= win.3
                }),
            k <= n,
            acc.covers as int <= acc0.covers as int + k as int,
            forall|px: int, py: int|
                0 <= px < acc0.width && 0 <= py < acc0.height ==> acc.den_at(px, py)
                    >= acc0.den_at(px, py),
            k >= 1 ==> forall|px: int, py: int|
                rp.0 <= px < rp.0 + b && rp.1 <= py < rp.1 + b ==> acc.den_at(px, py) >= 1,
            acc.num@ == crate::aggregate::add_group_num_spec(
                acc0.num@,
                group.deep_view(),
                anchors_of(patches@),
                b as int,
                w as int,
                acc0.width as int,
                k as int,
            ),
            acc.den@ == crate::aggregate::add_group_den_spec(
                acc0.den@,
                anchors_of(patches@),
                b as int,
                w as int,
                acc0.width as int,
                k as int,
            ),
        decreases n - k,
    {
        let anchor = patches[k].top_left;
        proof {
            lemma_window_props(
                acc0.width as int,
                acc0.height as int,
                rp.0 as int,
                rp.1 as int,
                b as int,
                window as int,
            );
            assert(group.deep_view()[k as int] =~= group@[k as int].deep_view());
            assert forall|r: int|
                0 <= r < b implies (#[trigger] group@[k as int]@[r])@.len() == b
                && crate::fixed::all_bounded(group@[k as int]@[r]@, VAL_LIMIT as int) by {
                assert(group@[k as int].deep_view()[r] =~= group@[k as int]@[r]@);
            }
        }
        let ghost pre = *acc;
        acc.add_patch(&group[k], anchor, b, w);
        proof {
            assert(group@[k as int].deep_view() =~~= group.deep_view()[k as int]);
            assert(anchor == anchors_of(patches@)[k as int]);
            assert(acc.num@ == crate::aggregate::add_patch_num_spec(
                pre.num@,
                group.deep_view()[k as int],
                anchor.0 as int,
                anchor.1 as int,
                b as int,
                w as int,
                acc0.width as int,
            ));
            assert(acc.den@ == crate::aggregate::add_patch_den_spec(
                pre.den@,
                anchor.0 as int,
                anchor.1 as int,
                b as int,
                w as int,
                acc0.width as int,
            ));
            assert forall|px: int, py: int|
                0 <= px < acc0.width && 0 <= py < acc0.height implies acc.den_at(px, py)
                >= acc0.den_at(px, py) by {
                assert(acc.den_at(px, py) >= pre.den_at(px, py));
            }
            if k == 0 {
                assert forall|px: int, py: int|
                    rp.0 <= px < rp.0 + b && rp.1 <= py < rp.1 + b implies acc.den_at(px, py)
                    >= 1 by {
                    assert(acc.den_at(px, py) == pre.den_at(px, py) + w as int);
                    crate::aggregate::lemma_agg_index(
                        px,
                        py,
                        pre.width as int,
                        pre.height as int,
                    );
                    assert(pre.den_at(px, py) >= 0);
                }
            } else {
                assert forall|px: int, py: int|
                    rp.0 <= px < rp.0 + b && rp.1 <= py < rp.1 + b implies acc.den_at(px, py)
                    >= 1 by {
                    assert(acc.den_at(px, py) >= pre.den_at(px, py));
                }
            }
        }
        k = k + 1;
    }
}

/// The member anchors of a matched group: the reference first, then the
/// nearest survivors in matching order, exactly as the similarity search
/// returns them.
pub open spec fn group_anchors_ok(
    a: Seq<(usize, usize)>,
    p: Plane,
    rp: (usize, usize),
    b: int,
    ws: int,
    tau: int,
    maxm: int,
) -> bool {
    &&& a.len() >= 1
    &&& a[0] == rp
    &&& exists|all: Seq<crate::matching::MatchCand>|
        {
            &&& crate::matching::cands_exhaustive(all, p, rp, b, ws, tau)
            &&& crate::matching::sorted_cands(all)
            &&& a.len() == crate::matching::pow2_floor_spec(
                crate::matching::spec_min(
                    all.len() as int + 1,
                    crate::matching::spec_min(maxm, 16),
                ),
            )
            &&& forall|k: int|
                1 <= k < a.len() ==> (#[trigger] a[k]).0 as int == all[k - 1].x as int
                    && a[k].1 as int == all[k - 1].y as int
        }
}

/// The anchors of a search result satisfy [`group_anchors_ok`].
proof fn lemma_find_ok_anchors(
    v: Seq<crate::matching::Patch>,
    p: Plane,
    rp: (usize, usize),
    b: int,
    ws: int,
    tau: int,
    maxm: int,
)
    requires
        find_ok(v, p, rp, b, ws, tau, maxm),
    ensures
        group_anchors_ok(anchors_of(v), p, rp, b, ws, tau, maxm),
        anchors_of(v).len() == v.len(),
{
    let a = anchors_of(v);
    let all = choose|all: Seq<crate::matching::MatchCand>|
        crate::matching::chosen_from(all, v, p, rp, b, ws, tau, maxm);
    assert(crate::matching::cands_exhaustive(all, p, rp, b, ws, tau));
    assert(crate::matching::sorted_cands(all));
    assert(a.len() == crate::matching::pow2_floor_spec(
        crate::matching::spec_min(all.len() as int + 1, crate::matching::spec_min(maxm, 16)),
    ));
    assert(forall|k: int|
        1 <= k < a.len() ==> (#[trigger] a[k]).0 as int == all[k - 1].x as int && a[k].1 as int
            == all[k - 1].y as int);
}

/// The matcher's contract admits exactly one group: any two anchor lists
/// satisfying it at the same reference coincide.
pub proof fn lemma_group_anchors_unique(
    a1: Seq<(usize, usize)>,
    a2: Seq<(usize, usize)>,
    p: Plane,
    rp: (usize, usize),
    b: int,
    ws: int,
    tau: int,
    maxm: int,
)
    requires
        group_anchors_ok(a1, p, rp, b, ws, tau, maxm),
        group_anchors_ok(a2, p, rp, b, ws, tau, maxm),
    ensures
        a1 =~= a2,
{
    let all1 = choose|all: Seq<crate::matching::MatchCand>|
        {
            &&& crate::matching::cands_exhaustive(all, p, rp, b, ws, tau)
            &&& crate::matching::sorted_cands(all)
            &&& a1.len() == crate::matching::pow2_floor_spec(
                crate::matching::spec_min(
                    all.len() as int + 1,
                    crate::matching::spec_min(maxm, 16),
                ),
            )
            &&& forall|k: int|
                1 <= k < a1.len() ==> (#[trigger] a1[k]).0 as int == all[k - 1].x as int
                    && a1[k].1 as int == all[k - 1].y as int
        };
    let all2 = choose|all: Seq<crate::matching::MatchCand>|
        {
            &&& crate::matching::cands_exhaustive(all, p, rp, b, ws, tau)
            &&& crate::matching::sorted_cands(all)
            &&& a2.len() == crate::matching::pow2_floor_spec(
                crate::matching::spec_min(
                    all.len() as int + 1,
                    crate::matching::spec_min(maxm, 16),
                ),
            )
            &&& forall|k: int|
                1 <= k < a2.len() ==> (#[trigger] a2[k]).0 as int == all[k - 1].x as int
                    && a2[k].1 as int == all[k - 1].y as int
        };
    crate::matching::lemma_cands_unique(all1, all2, p, rp, b, ws, tau);
    assert(all1 == all2);
    assert(a1.len() == a2.len());
    assert forall|k: int| 0 <= k < a1.len() implies a1[k] == a2[k] by {
        if k >= 1 {
            assert((a1[k]).0 as int == all1[k - 1].x as int);
            assert((a2[k]).0 as int == all2[k - 1].x as int);
            assert((a1[k]).1 as int == all1[k - 1].y as int);
            assert((a2[k]).1 as int == all2[k - 1].y as int);
        }
    }
}

/// The stack of plane blocks at the given anchors.
pub open spec fn group_at(p: Plane, a: Seq<(usize, usize)>, b: int) -> Seq<Seq<Seq<i64>>> {
    Seq::new(
        a.len(),
        |k: int|
            Seq::new(
                b as nat,
                |r: int|
                    Seq::new(
                        b as nat,
                        |c: int| p.data@[(a[k].1 as int + r) * p.width + (a[k].0 as int + c)],
                    ),
            ),
    )
}

/// The 3-D coefficients of a group: per-layer forward transform, then the
/// across-stack transform.
pub open spec fn hard_coeffs_spec(p: Plane, a: Seq<(usize, usize)>, b: int) -> Seq<Seq<Seq<i64>>> {
    wht_group_spec(layers_spec(group_at(p, a, b), a.len() as int, b, true), a.len() as int, b)
}

/// A group after the whole hard-thresholding chain: transform, shrink,
/// inverse.
pub open spec fn hard_filtered_spec(p: Plane, a: Seq<(usize, usize)>, b: int, t: int) -> Seq<
    Seq<Seq<i64>>,
> {
    layers_spec(
        wht_group_spec(group_thr_spec(hard_coeffs_spec(p, a, b), a.len() as int, t), a.len() as int, b),
        a.len() as int,
        b,
        false,
    )
}

/// The aggregation weight of one hard-thresholded group.
pub open spec fn hard_gweight_spec(p: Plane, a: Seq<(usize, usize)>, b: int, t: int, s2: int) -> int {
    hard_weight_spec(group_retained_spec(hard_coeffs_spec(p, a, b), t, a.len() as int), s2)
}

/// The raster sequence of reference anchors of one pass.
pub open spec fn grid_pairs(gx: Seq<usize>, gy: Seq<usize>) -> Seq<(usize, usize)> {
    Seq::new(gy.len() * gx.len(), |i: int| (gx[i % gx.len() as int], gy[i / gx.len() as int]))
}

/// The numerator buffer after the first `i` groups of a hard pass.
pub open spec fn hard_fold_num(
    num: Seq<i128>,
    p: Plane,
    anchors: Seq<(usize, usize)>,
    gs: Seq<Seq<(usize, usize)>>,
    b: int,
    t: int,
    s2: int,
    width: int,
    i: int,
) -> Seq<i128>
    decreases i,
{
    if i <= 0 {
        num
    } else {
        crate::aggregate::add_group_num_spec(
            hard_fold_num(num, p, anchors, gs, b, t, s2, width, i - 1),
            hard_filtered_spec(p, gs[i - 1], b, t),
            gs[i - 1],
            b,
            hard_gweight_spec(p, gs[i - 1], b, t, s2),
            width,
            gs[i - 1].len() as int,
        )
    }
}

/// The denominator buffer after the first `i` groups of a hard pass.
pub open spec fn hard_fold_den(
    den: Seq<i128>,
    p: Plane,
    anchors: Seq<(usize, usize)>,
    gs: Seq<Seq<(usize, usize)>>,
    b: int,
    t: int,
    s2: int,
    width: int,
    i: int,
) -> Seq<i128>
    decreases i,
{
    if i <= 0 {
        den
    } else {
        crate::aggregate::add_group_den_spec(
            hard_fold_den(den, p, anchors, gs, b, t, s2, width, i - 1),
            gs[i - 1],
            b,
            hard_gweight_spec(p, gs[i - 1], b, t, s2),
            width,
            gs[i - 1].len() as int,
        )
    }
}

/// An all-zero buffer.
pub open spec fn zseq(n: int) -> Seq<i128> {
    Seq::new(n as nat, |i: int| 0i128)
}

/// The folds read only the first `i` groups, so extending the group list
/// leaves them unchanged.
proof fn lemma_fold_prefix(
    num: Seq<i128>,
    den: Seq<i128>,
    p: Plane,
    anchors: Seq<(usize, usize)>,
    gs1: Seq<Seq<(usize, usize)>>,
    gs2: Seq<Seq<(usize, usize)>>,
    b: int,
    t: int,
    s2: int,
    width: int,
    i: int,
)
    requires
        0 <= i <= gs1.len(),
        i <= gs2.len(),
        forall|j: int| 0 <= j < i ==> gs1[j] == gs2[j],
    ensures
        hard_fold_num(num, p, anchors, gs1, b, t, s2, width, i) == hard_fold_num(
            num,
            p,
            anchors,
            gs2,
            b,
            t,
            s2,
            width,
            i,
        ),
        hard_fold_den(den, p, anchors, gs1, b, t, s2, width, i) == hard_fold_den(
            den,
            p,
            anchors,
            gs2,
            b,
            t,
            s2,
            width,
            i,
        ),
    decreases i,
{
    if i > 0 {
        lemma_fold_prefix(num, den, p, anchors, gs1, gs2, b, t, s2, width, i - 1);
    }
}

/// Row and column of a raster pair index.
proof fn lemma_pair_index(iy: int, ix: int, gxl: int)
    requires
        0 <= ix < gxl,
        0 <= iy,
    ensures
        (iy * gxl + ix) % gxl == ix,
        (iy * gxl + ix) / gxl == iy,
        0 <= iy * gxl + ix,
{
    assert((iy * gxl + ix) % gxl == ix && (iy * gxl + ix) / gxl == iy && 0 <= iy * gxl + ix)
        by (nonlinear_arith)
        requires
            0 <= ix < gxl,
            0 <= iy,
    ;
}

/// The whole content contract of the hard-thresholding pass: there is a
/// per-anchor choice of matched groups, each satisfying the matcher's
/// contract at its reference anchor, whose weighted overlap-add fold from
/// all-zero buffers is exactly the accumulator's content.
pub open spec fn hard_pass_post(
    gs: Seq<Seq<(usize, usize)>>,
    p: Plane,
    b: int,
    window: int,
    step: int,
    maxm: int,
    tau: int,
    t: int,
    s2: int,
    num: Seq<i128>,
    den: Seq<i128>,
) -> bool {
    let gx = grid_from(0, p.width - b, step);
    let gy = grid_from(0, p.height - b, step);
    let anchors = grid_pairs(gx, gy);
    &&& gs.len() == anchors.len()
    &&& forall|i: int|
        0 <= i < gs.len() ==> group_anchors_ok(#[trigger] gs[i], p, anchors[i], b, window, tau, maxm)
    &&& num == hard_fold_num(
        zseq(p.width as int * p.height as int),
        p,
        anchors,
        gs,
        b,
        t,
        s2,
        p.width as int,
        gs.len() as int,
    )
    &&& den == hard_fold_den(
        zseq(p.width as int * p.height as int),
        p,
        anchors,
        gs,
        b,
        t,
        s2,
        p.width as int,
        gs.len() as int,
    )
}

/// A group shrunk layer by layer against a reference group.
pub open spec fn shrink_group_spec(
    gn: Seq<Seq<Seq<i64>>>,
    gb: Seq<Seq<Seq<i64>>>,
    s2: int,
    n: int,
    b: int,
) -> Seq<Seq<Seq<i64>>> {
    Seq::new(n as nat, |k: int| crate::wiener::shrink_block_spec(gn[k], gb[k], s2, b))
}

/// Total sum of squared gains over the first `k` layers of a reference
/// group.
pub open spec fn group_g2_spec(gb: Seq<Seq<Seq<i64>>>, s2: int, b: int, k: int) -> int
    decreases k,
{
    if k <= 0 {
        0
    } else {
        group_g2_spec(gb, s2, b, k - 1) + crate::wiener::block_g2_spec(gb[k - 1], s2, b)
    }
}

/// A group after the whole Wiener chain: both groups transformed, the noisy
/// coefficients shrunk by the gains of the basic estimate, then inverted.
pub open spec fn wiener_filtered_spec(
    noisy: Plane,
    basic: Plane,
    a: Seq<(usize, usize)>,
    b: int,
    s2: int,
) -> Seq<Seq<Seq<i64>>> {
    let n = a.len() as int;
    layers_spec(
        wht_group_spec(
            shrink_group_spec(hard_coeffs_spec(noisy, a, b), hard_coeffs_spec(basic, a, b), s2, n, b),
            n,
            b,
        ),
        n,
        b,
        false,
    )
}

/// The aggregation weight of one Wiener group.
pub open spec fn wiener_gweight_spec(basic: Plane, a: Seq<(usize, usize)>, b: int, s2: int) -> int {
    wiener_weight_spec(group_g2_spec(hard_coeffs_spec(basic, a, b), s2, b, a.len() as int), s2)
}

/// The numerator buffer after the first `i` groups of a Wiener pass.
pub open spec fn wiener_fold_num(
    num: Seq<i128>,
    noisy: Plane,
    basic: Plane,
    anchors: Seq<(usize, usize)>,
    gs: Seq<Seq<(usize, usize)>>,
    b: int,
    s2: int,
    width: int,
    i: int,
) -> Seq<i128>
    decreases i,
{
    if i <= 0 {
        num
    } else {
        crate::aggregate::add_group_num_spec(
            wiener_fold_num(num, noisy, basic, anchors, gs, b, s2, width, i - 1),
            wiener_filtered_spec(noisy, basic, gs[i - 1], b, s2),
            gs[i - 1],
            b,
            wiener_gweight_spec(basic, gs[i - 1], b, s2),
            width,
            gs[i - 1].len() as int,
        )
    }
}

/// The denominator buffer after the first `i` groups of a Wiener pass.
pub open spec fn wiener_fold_den(
    den: Seq<i128>,
    noisy: Plane,
    basic: Plane,
    anchors: Seq<(usize, usize)>,
    gs: Seq<Seq<(usize, usize)>>,
    b: int,
    s2: int,
    width: int,
    i: int,
) -> Seq<i128>
    decreases i,
{
    if i <= 0 {
        den
    } else {
        crate::aggregate::add_group_den_spec(
            wiener_fold_den(den, noisy, basic, anchors, gs, b, s2, width, i - 1),
            gs[i - 1],
            b,
            wiener_gweight_spec(basic, gs[i - 1], b, s2),
            width,
            gs[i - 1].len() as int,
        )
    }
}

/// The Wiener folds also read only the first `i` groups.
proof fn lemma_wiener_fold_prefix(
    num: Seq<i128>,
    den: Seq<i128>,
    noisy: Plane,
    basic: Plane,
    anchors: Seq<(usize, usize)>,
    gs1: Seq<Seq<(usize, usize)>>,
    gs2: Seq<Seq<(usize, usize)>>,
    b: int,
    s2: int,
    width: int,
    i: int,
)
    requires
        0 <= i <= gs1.len(),
        i <= gs2.len(),
        forall|j: int| 0 <= j < i ==> gs1[j] == gs2[j],
    ensures
        wiener_fold_num(num, noisy, basic, anchors, gs1, b, s2, width, i) == wiener_fold_num(
            num,
            noisy,
            basic,
            anchors,
            gs2,
            b,
            s2,
            width,
            i,
        ),
        wiener_fold_den(den, noisy, basic, anchors, gs1, b, s2, width, i) == wiener_fold_den(
            den,
            noisy,
            basic,
            anchors,
            gs2,
            b,
            s2,
            width,
            i,
        ),
    decreases i,
{
    if i > 0 {
        lemma_wiener_fold_prefix(num, den, noisy, basic, anchors, gs1, gs2, b, s2, width, i - 1);
    }
}

/// The whole content contract of the Wiener pass, matched on the basic
/// estimate and filtered from the noisy channel.
pub open spec fn wiener_pass_post(
    gs: Seq<Seq<(usize, usize)>>,
    noisy: Plane,
    basic: Plane,
    b: int,
    window: int,
    step: int,
    maxm: int,
    tau: int,
    s2: int,
    num: Seq<i128>,
    den: Seq<i128>,
) -> bool {
    let gx = grid_from(0, noisy.width - b, step);
    let gy = grid_from(0, noisy.height - b, step);
    let anchors = grid_pairs(gx, gy);
    &&& gs.len() == anchors.len()
    &&& forall|i: int|
        0 <= i < gs.len() ==> group_anchors_ok(
            #[trigger] gs[i],
            basic,
            anchors[i],
            b,
            window,
            tau,
            maxm,
        )
    &&& num == wiener_fold_num(
        zseq(noisy.width as int * noisy.height as int),
        noisy,
        basic,
        anchors,
        gs,
        b,
        s2,
        noisy.width as int,
        gs.len() as int,
    )
    &&& den == wiener_fold_den(
        zseq(noisy.width as int * noisy.height as int),
        noisy,
        basic,
        anchors,
        gs,
        b,
        s2,
        noisy.width as int,
        gs.len() as int,
    )
}

/// Reruns of the hard pass are bit-identical: the pass contract determines
/// the accumulator content uniquely, because the matcher's result is a
/// function of its inputs.
pub proof fn lemma_hard_pass_deterministic(
    gs1: Seq<Seq<(usize, usize)>>,
    gs2: Seq<Seq<(usize, usize)>>,
    p: Plane,
    b: int,
    window: int,
    step: int,
    maxm: int,
    tau: int,
    t: int,
    s2: int,
    n1: Seq<i128>,
    d1: Seq<i128>,
    n2: Seq<i128>,
    d2: Seq<i128>,
)
    requires
        hard_pass_post(gs1, p, b, window, step, maxm, tau, t, s2, n1, d1),
        hard_pass_post(gs2, p, b, window, step, maxm, tau, t, s2, n2, d2),
    ensures
        n1 == n2,
        d1 == d2,
{
    let gx = grid_from(0, p.width - b, step);
    let gy = grid_from(0, p.height - b, step);
    let anchors = grid_pairs(gx, gy);
    assert forall|i: int| 0 <= i < gs1.len() implies #[trigger] gs1[i] == gs2[i] by {
        lemma_group_anchors_unique(gs1[i], gs2[i], p, anchors[i], b, window, tau, maxm);
        assert(gs1[i] =~= gs2[i]);
    }
    assert(gs1 =~~= gs2);
}

/// Reruns of the Wiener pass are bit-identical as well.
pub proof fn lemma_wiener_pass_deterministic(
    gs1: Seq<Seq<(usize, usize)>>,
    gs2: Seq<Seq<(usize, usize)>>,
    noisy: Plane,
    basic: Plane,
    b: int,
    window: int,
    step: int,
    maxm: int,
    tau: int,
    s2: int,
    n1: Seq<i128>,
    d1: Seq<i128>,
    n2: Seq<i128>,
    d2: Seq<i128>,
)
    requires
        wiener_pass_post(gs1, noisy, basic, b, window, step, maxm, tau, s2, n1, d1),
        wiener_pass_post(gs2, noisy, basic, b, window, step, maxm, tau, s2, n2, d2),
    ensures
        n1 == n2,
        d1 == d2,
{
    let gx = grid_from(0, noisy.width - b, step);
    let gy = grid_from(0, noisy.height - b, step);
    let anchors = grid_pairs(gx, gy);
    assert forall|i: int| 0 <= i < gs1.len() implies #[trigger] gs1[i] == gs2[i] by {
        lemma_group_anchors_unique(gs1[i], gs2[i], basic, anchors[i], b, window, tau, maxm);
        assert(gs1[i] =~= gs2[i]);
    }
    assert(gs1 =~~= gs2);
}

/// Pixel `(px, py)` lies in the block of some anchor pair already processed
/// by the raster iteration over the two grids (rows before `iy`, and row
/// `iy` up to column `ix`).
pub open spec fn done_covered(
    gx: Seq<usize>,
    gy: Seq<usize>,
    b: int,
    iy: int,
    ix: int,
    px: int,
    py: int,
) -> bool {
    exists|ky: int, kx: int|
        #![trigger gy[ky], gx[kx]]
        0 <= ky < gy.len() && 0 <= kx < gx.len() && (ky < iy || (ky == iy && kx < ix))
            && gx[kx] <= px < gx[kx] + b && gy[ky] <= py < gy[ky] + b
}

/// One hard-thresholding group: match, stack, 3-D transform, shrink,
/// invert and aggregate.
fn filter_group_hard(
    noisy: &Plane,
    rp: (usize, usize),
    b: usize,
    window: usize,
    maxm: usize,
    tau_q: u64,
    t_q8: i64,
    sigma2_q16: u64,
    acc: &mut Accumulator,
) -> (ga: Ghost<Seq<(usize, usize)>>)
    requires
        noisy.wf(),
        dct_size_ok(b as int),
        b < window <= MAX_SIDE,
        1 <= maxm,
        t_q8 >= 0,
        1 <= sigma2_q16 <= 0x1_0000_0000,
        rp.0 + b <= noisy.width,
        rp.1 + b <= noisy.height,
        old(acc).wf(),
        old(acc).width == noisy.width,
        old(acc).height == noisy.height,
        old(acc).covers + 16 <= COVERS_MAX,
    ensures
        final(acc).wf(),
        final(acc).width == old(acc).width,
        final(acc).height == old(acc).height,
        final(acc).covers <= old(acc).covers + 16,
        forall|px: int, py: int|
            0 <= px < old(acc).width && 0 <= py < old(acc).height ==> final(acc).den_at(px, py)
                >= old(acc).den_at(px, py),
        forall|px: int, py: int|
            rp.0 <= px < rp.0 + b && rp.1 <= py < rp.1 + b ==> final(acc).den_at(px, py) >= 1,
        group_anchors_ok(ga@, *noisy, rp, b as int, window as int, tau_q as int, maxm as int),
        final(acc).num@ == crate::aggregate::add_group_num_spec(
            old(acc).num@,
            hard_filtered_spec(*noisy, ga@, b as int, t_q8 as int),
            ga@,
            b as int,
            hard_gweight_spec(*noisy, ga@, b as int, t_q8 as int, sigma2_q16 as int),
            old(acc).width as int,
            ga@.len() as int,
        ),
        final(acc).den@ == crate::aggregate::add_group_den_spec(
            old(acc).den@,
            ga@,
            b as int,
            hard_gweight_spec(*noisy, ga@, b as int, t_q8 as int, sigma2_q16 as int),
            old(acc).width as int,
            ga@.len() as int,
        ),
{
    let patches = match find_similar_patches(noisy, rp, b, window, maxm, tau_q) {
        Ok(p) => p,
        Err(_) => {
            proof {
                assert(false);
            }
            return Ghost(Seq::empty());
        },
    };
    let ghost ga = anchors_of(patches@);
    proof {
        lemma_find_ok_anchors(
            patches@,
            *noisy,
            rp,
            b as int,
            window as int,
            tau_q as int,
            maxm as int,
        );
    }
    let mut group = form_group(&patches, b);
    let n = group.len();
    proof {
        assert(stack_size_ok(n as int));
        assert forall|k: int, r: int, c: int|
            0 <= k < n && 0 <= r < b && 0 <= c < b implies #[trigger] group.deep_view()[k][r][c]
            == group_at(*noisy, ga, b as int)[k][r][c] by {
            assert(group.deep_view()[k] =~= group@[k].deep_view());
            assert(group@[k].deep_view()[r] =~= group@[k]@[r]@);
            assert(group@[k]@[r]@[c] == patches@[k].data@[r * b + c]);
            crate::fixed::lemma_row_major_lt(r, c, b as int, b as int);
            assert(patches@[k].data@[r * b + c] as int == noisy.at(
                patches@[k].top_left.0 as int + c,
                patches@[k].top_left.1 as int + r,
            ));
        }
        assert(group.deep_view() =~~= group_at(*noisy, ga, b as int));
    }
    transform_layers(&mut group, b, true);
    wht_across(&mut group, b);
    let ghost coeffs = group.deep_view();
    proof {
        assert(coeffs == hard_coeffs_spec(*noisy, ga, b as int));
    }
    let retained = threshold_layers(&mut group, b, t_q8);
    wht_across(&mut group, b);
    transform_layers(&mut group, b, false);
    proof {
        assert(group.deep_view() == hard_filtered_spec(*noisy, ga, b as int, t_q8 as int));
    }
    let w = hard_weight(retained, sigma2_q16);
    proof {
        assert(w as int == hard_gweight_spec(
            *noisy,
            ga,
            b as int,
            t_q8 as int,
            sigma2_q16 as int,
        ));
    }
    proof {
        assert forall|k: int|
            1 <= k < patches@.len() implies ({
            let win = window_spec(
                old(acc).width as int,
                old(acc).height as int,
                rp.0 as int,
                rp.1 as int,
                b as int,
                window as int,
            );
            &&& win.0 <= (#[trigger] patches@[k]).top_left.0 as int
            &&& patches@[k].top_left.0 as int + b <= win.2
            &&& win.1 <= patches@[k].top_left.1 as int
            &&& patches@[k].top_left.1 as int + b <= win.3
        }) by {
            assert(is_cand(
                *noisy,
                rp,
                b as int,
                window as int,
                tau_q as int,
                patches@[k].top_left.0 as int,
                patches@[k].top_left.1 as int,
            ));
        }
    }
    aggregate_group(acc, &group, &patches, rp, b, window, w);
    Ghost(ga)
}

/// One Wiener group: match on the basic estimate, stack both groups,
/// transform, shrink the noisy coefficients with the gains of the basic
/// estimate, invert and aggregate.
fn filter_group_wiener(
    noisy: &Plane,
    basic: &Plane,
    rp: (usize, usize),
    b: usize,
    window: usize,
    maxm: usize,
    tau_q: u64,
    sigma2_q16: u64,
    acc: &mut Accumulator,
) -> (ga: Ghost<Seq<(usize, usize)>>)
    requires
        noisy.wf(),
        basic.wf(),
        basic.width == noisy.width,
        basic.height == noisy.height,
        dct_size_ok(b as int),
        b < window <= MAX_SIDE,
        1 <= maxm,
        1 <= sigma2_q16 <= 0x1_0000_0000,
        rp.0 + b <= noisy.width,
        rp.1 + b <= noisy.height,
        old(acc).wf(),
        old(acc).width == noisy.width,
        old(acc).height == noisy.height,
        old(acc).covers + 16 <= COVERS_MAX,
    ensures
        final(acc).wf(),
        final(acc).width == old(acc).width,
        final(acc).height == old(acc).height,
        final(acc).covers <= old(acc).covers + 16,
        forall|px: int, py: int|
            0 <= px < old(acc).width && 0 <= py < old(acc).height ==> final(acc).den_at(px, py)
                >= old(acc).den_at(px, py),
        forall|px: int, py: int|
            rp.0 <= px < rp.0 + b && rp.1 <= py < rp.1 + b ==> final(acc).den_at(px, py) >= 1,
        group_anchors_ok(ga@, *basic, rp, b as int, window as int, tau_q as int, maxm as int),
        final(acc).num@ == crate::aggregate::add_group_num_spec(
            old(acc).num@,
            wiener_filtered_spec(*noisy, *basic, ga@, b as int, sigma2_q16 as int),
            ga@,
            b as int,
            wiener_gweight_spec(*basic, ga@, b as int, sigma2_q16 as int),
            old(acc).width as int,
            ga@.len() as int,
        ),
        final(acc).den@ == crate::aggregate::add_group_den_spec(
            old(acc).den@,
            ga@,
            b as int,
            wiener_gweight_spec(*basic, ga@, b as int, sigma2_q16 as int),
            old(acc).width as int,
            ga@.len() as int,
        ),
{
    let patches = match find_similar_patches(basic, rp, b, window, maxm, tau_q) {
        Ok(p) => p,
        Err(_) => {
            proof {
                assert(false);
            }
            return Ghost(Seq::empty());
        },
    };
    let ghost ga = anchors_of(patches@);
    proof {
        lemma_find_ok_anchors(
            patches@,
            *basic,
            rp,
            b as int,
            window as int,
            tau_q as int,
            maxm as int,
        );
        lemma_window_props(
            basic.width as int,
            basic.height as int,
            rp.0 as int,
            rp.1 as int,
            b as int,
            window as int,
        );
    }
    // Extract the matching noisy patches at the same anchors.
    let n = patches.len();
    let mut npatches: Vec<crate::matching::Patch> = Vec::new();
    let mut k: usize = 0;
    while k < n
        invariant
            noisy.wf(),
            basic.wf(),
            basic.width == noisy.width,
            basic.height == noisy.height,
            dct_size_ok(b as int),
            b < window <= MAX_SIDE,
            rp.0 + b <= noisy.width,
            rp.1 + b <= noisy.height,
            n == patches@.len(),
            find_ok(
                patches@,
                *basic,
                rp,
                b as int,
                window as int,
                tau_q as int,
                maxm as int,
            ),
            k <= n,
            npatches@.len() == k,
            forall|i: int|
                0 <= i < k ==> (#[trigger] npatches@[i]).top_left == patches@[i].top_left,
            forall|i: int|
                0 <= i < k ==> is_patch_of(
                    (#[trigger] npatches@[i]).data@,
                    *noisy,
                    npatches@[i].top_left.0 as int,
                    npatches@[i].top_left.1 as int,
                    b as int,
                ) && crate::fixed::all_bounded(npatches@[i].data@, VAL_LIMIT as int),
        decreases n - k,
    {
        let a = patches[k].top_left;
        proof {
            if k >= 1 {
                assert(is_cand(
                    *basic,
                    rp,
                    b as int,
                    window as int,
                    tau_q as int,
                    a.0 as int,
                    a.1 as int,
                ));
            }
        }
        let p = match extract_patch(noisy, a, b) {
            Some(p) => p,
            None => {
                proof {
                    assert(false);
                }
                return Ghost(Seq::empty());
            },
        };
        npatches.push(p);
        k = k + 1;
    }
    let mut ngroup = form_group(&npatches, b);
    let mut bgroup = form_group(&patches, b);
    proof {
        assert(stack_size_ok(n as int));
        assert(anchors_of(npatches@) =~= ga);
        assert forall|k: int, r: int, c: int|
            0 <= k < n && 0 <= r < b && 0 <= c < b implies #[trigger] ngroup.deep_view()[k][r][c]
            == group_at(*noisy, ga, b as int)[k][r][c] by {
            assert(ngroup.deep_view()[k] =~= ngroup@[k].deep_view());
            assert(ngroup@[k].deep_view()[r] =~= ngroup@[k]@[r]@);
            assert(ngroup@[k]@[r]@[c] == npatches@[k].data@[r * b + c]);
            crate::fixed::lemma_row_major_lt(r, c, b as int, b as int);
            assert(npatches@[k].data@[r * b + c] as int == noisy.at(
                npatches@[k].top_left.0 as int + c,
                npatches@[k].top_left.1 as int + r,
            ));
        }
        assert(ngroup.deep_view() =~~= group_at(*noisy, ga, b as int));
        assert forall|k: int, r: int, c: int|
            0 <= k < n && 0 <= r < b && 0 <= c < b implies #[trigger] bgroup.deep_view()[k][r][c]
            == group_at(*basic, ga, b as int)[k][r][c] by {
            assert(bgroup.deep_view()[k] =~= bgroup@[k].deep_view());
            assert(bgroup@[k].deep_view()[r] =~= bgroup@[k]@[r]@);
            assert(bgroup@[k]@[r]@[c] == patches@[k].data@[r * b + c]);
            crate::fixed::lemma_row_major_lt(r, c, b as int, b as int);
            assert(patches@[k].data@[r * b + c] as int == basic.at(
                patches@[k].top_left.0 as int + c,
                patches@[k].top_left.1 as int + r,
            ));
        }
        assert(bgroup.deep_view() =~~= group_at(*basic, ga, b as int));
    }
    transform_layers(&mut ngroup, b, true);
    transform_layers(&mut bgroup, b, true);
    wht_across(&mut ngroup, b);
    wht_across(&mut bgroup, b);
    let ghost pre_n = ngroup.deep_view();
    let ghost pre_b = bgroup.deep_view();
    proof {
        assert(pre_n == hard_coeffs_spec(*noisy, ga, b as int));
        assert(pre_b == hard_coeffs_spec(*basic, ga, b as int));
    }
    // Per-coefficient Wiener shrinkage, layer by layer.
    let mut g2: u64 = 0;
    let mut k2: usize = 0;
    while k2 < n
        invariant
            dct_size_ok(b as int),
            1 <= sigma2_q16 <= 0x1_0000_0000,
            ngroup.len() == n,
            bgroup.len() == n,
            n <= 16,
            group_wf(ngroup.deep_view(), n as int, b as int),
            group_wf(bgroup.deep_view(), n as int, b as int),
            k2 <= n,
            g2 as int <= k2 as int * 0x10_0000_0000,
            bgroup.deep_view() == pre_b,
            pre_n.len() == n,
            forall|kk: int| k2 <= kk < n ==> (#[trigger] ngroup@[kk]).deep_view() =~= pre_n[kk],
            forall|kk: int|
                0 <= kk < k2 ==> (#[trigger] ngroup@[kk]).deep_view()
                    == crate::wiener::shrink_block_spec(
                    pre_n[kk],
                    pre_b[kk],
                    sigma2_q16 as int,
                    b as int,
                ),
            g2 as int == group_g2_spec(pre_b, sigma2_q16 as int, b as int, k2 as int),
        decreases n - k2,
    {
        let mut blk = copy_block(&ngroup[k2]);
        proof {
            assert(blk.deep_view() =~= ngroup@[k2 as int].deep_view());
            assert(ngroup.deep_view()[k2 as int] =~= ngroup@[k2 as int].deep_view());
            assert(bgroup.deep_view()[k2 as int] =~= bgroup@[k2 as int].deep_view());
            assert(crate::dct::block_wf(blk.deep_view(), b as int));
            assert forall|r: int|
                0 <= r < b implies (#[trigger] blk@[r])@.len() == b && crate::fixed::all_bounded(
                blk@[r]@,
                VAL_LIMIT as int,
            ) by {
                assert(blk.deep_view()[r] =~= blk@[r]@);
            }
            assert forall|r: int|
                0 <= r < b implies (#[trigger] bgroup@[k2 as int]@[r])@.len() == b
                && crate::fixed::all_bounded(bgroup@[k2 as int]@[r]@, VAL_LIMIT as int) by {
                assert(bgroup@[k2 as int].deep_view()[r] =~= bgroup@[k2 as int]@[r]@);
            }
        }
        let ghost blk0 = blk.deep_view();
        let lg2 = wiener_shrink_block(&mut blk, &bgroup[k2], sigma2_q16 as i64);
        proof {
            assert(blk0 =~= pre_n[k2 as int]);
            assert(bgroup@[k2 as int].deep_view() =~= pre_b[k2 as int]);
            assert forall|r: int, c: int|
                0 <= r < b && 0 <= c < b implies #[trigger] blk.deep_view()[r][c]
                == crate::wiener::shrink_block_spec(
                pre_n[k2 as int],
                pre_b[k2 as int],
                sigma2_q16 as int,
                b as int,
            )[r][c] by {
                assert(blk.deep_view()[r] =~= blk@[r]@);
                assert(blk@[r]@[c] as int == crate::wiener::shrink_val_spec(
                    blk0[r][c] as int,
                    pre_b[k2 as int][r][c] as int,
                    sigma2_q16 as int,
                ));
            }
            assert(blk.deep_view() =~~= crate::wiener::shrink_block_spec(
                pre_n[k2 as int],
                pre_b[k2 as int],
                sigma2_q16 as int,
                b as int,
            ));
            assert(lg2 as int == crate::wiener::block_g2_spec(
                pre_b[k2 as int],
                sigma2_q16 as int,
                b as int,
            ));
            crate::wiener::lemma_block_g2_range(
                bgroup@[k2 as int].deep_view(),
                sigma2_q16 as int,
                b as int,
            );
            assert(lg2 as int <= 0x10_0000_0000) by (nonlinear_arith)
                requires
                    lg2 as int <= b as int * 8 * 0x4000_0000,
                    b as int <= 8,
            ;
            assert(k2 as int * 0x10_0000_0000 + 0x10_0000_0000 == (k2 as int + 1)
                * 0x10_0000_0000) by (nonlinear_arith);
            assert((k2 as int + 1) * 0x10_0000_0000 <= 16 * 0x10_0000_0000) by (nonlinear_arith)
                requires
                    k2 as int + 1 <= 16,
            ;
            assert forall|r: int|
                0 <= r < b implies (#[trigger] blk.deep_view()[r]).len() == b
                && crate::fixed::all_bounded(blk.deep_view()[r], VAL_LIMIT as int) by {
                assert(blk.deep_view()[r] =~= blk@[r]@);
            }
            assert(crate::dct::block_wf(blk.deep_view(), b as int));
        }
        let ghost pre_set = ngroup@;
        let ghost pre_deep = ngroup.deep_view();
        ngroup.set(k2, blk);
        proof {
            assert forall|kk: int|
                0 <= kk < n implies crate::dct::block_wf(
                #[trigger] ngroup.deep_view()[kk],
                b as int,
            ) by {
                assert(ngroup.deep_view()[kk] =~= ngroup@[kk].deep_view());
                if kk == k2 as int {
                    assert(ngroup@[kk].deep_view() =~= blk.deep_view());
                } else {
                    assert(ngroup@[kk] == pre_set[kk]);
                    assert(pre_deep[kk] =~= pre_set[kk].deep_view());
                    assert(crate::dct::block_wf(pre_deep[kk], b as int));
                }
            }
        }
        g2 = g2 + lg2;
        k2 = k2 + 1;
    }
    proof {
        assert(ngroup.deep_view() =~~= shrink_group_spec(
            pre_n,
            pre_b,
            sigma2_q16 as int,
            n as int,
            b as int,
        ));
    }
    wht_across(&mut ngroup, b);
    transform_layers(&mut ngroup, b, false);
    proof {
        assert(ngroup.deep_view() == wiener_filtered_spec(
            *noisy,
            *basic,
            ga,
            b as int,
            sigma2_q16 as int,
        ));
        assert(g2 as int <= 16 * 0x10_0000_0000) by (nonlinear_arith)
            requires
                g2 as int <= n as int * 0x10_0000_0000,
                n as int <= 16,
        ;
    }
    let w = wiener_weight(g2, sigma2_q16);
    proof {
        assert(w as int == wiener_gweight_spec(*basic, ga, b as int, sigma2_q16 as int));
    }
    proof {
        assert forall|i: int|
            1 <= i < npatches@.len() implies ({
            let win = window_spec(
                old(acc).width as int,
                old(acc).height as int,
                rp.0 as int,
                rp.1 as int,
                b as int,
                window as int,
            );
            &&& win.0 <= (#[trigger] npatches@[i]).top_left.0 as int
            &&& npatches@[i].top_left.0 as int + b <= win.2
            &&& win.1 <= npatches@[i].top_left.1 as int
            &&& npatches@[i].top_left.1 as int + b <= win.3
        }) by {
            assert(is_cand(
                *basic,
                rp,
                b as int,
                window as int,
                tau_q as int,
                patches@[i].top_left.0 as int,
                patches@[i].top_left.1 as int,
            ));
        }
        assert(npatches@[0].top_left == rp);
    }
    aggregate_group(acc, &ngroup, &npatches, rp, b, window, w);
    Ghost(ga)
}

/// The hard-thresholding pass over one channel: every reference anchor on
/// the stride grid contributes its filtered group to a fresh accumulator.
/// With a stride of at most one block, every pixel of the channel ends with
/// a positive denominator, and the accumulator content is exactly the fold
/// of the per-anchor matched, transformed, thresholded and inverted groups
/// ([`hard_pass_post`]); by [`lemma_hard_pass_deterministic`] that content
/// is unique.
pub fn hard_pass(
    noisy: &Plane,
    b: usize,
    window: usize,
    step: usize,
    maxm: usize,
    tau_q: u64,
    t_q8: i64,
    sigma2_q16: u64,
) -> (acc: Accumulator)
    requires
        noisy.wf(),
        dct_size_ok(b as int),
        b < window <= MAX_SIDE,
        1 <= step <= b,
        1 <= maxm,
        t_q8 >= 0,
        1 <= sigma2_q16 <= 0x1_0000_0000,
        b <= noisy.width,
        b <= noisy.height,
    ensures
        acc.wf(),
        acc.width == noisy.width,
        acc.height == noisy.height,
        forall|px: int, py: int|
            0 <= px < noisy.width && 0 <= py < noisy.height ==> acc.den_at(px, py) >= 1,
        exists|gs: Seq<Seq<(usize, usize)>>|
            hard_pass_post(
                gs,
                *noisy,
                b as int,
                window as int,
                step as int,
                maxm as int,
                tau_q as int,
                t_q8 as int,
                sigma2_q16 as int,
                acc.num@,
                acc.den@,
            ),
{
    let mut acc = Accumulator::new(noisy.width, noisy.height);
    let lx = noisy.width - b;
    let ly = noisy.height - b;
    let gx = anchor_grid(lx, step);
    let gy = anchor_grid(ly, step);
    let gxl = gx.len();
    let gyl = gy.len();
    let ghost pairs = grid_pairs(gx@, gy@);
    let ghost mut gs: Seq<Seq<(usize, usize)>> = Seq::empty();
    proof {
        crate::fixed::lemma_mul_le(gyl as int, gxl as int, 0x2001, 0x2001);
        assert(acc.num@ =~= zseq(noisy.width as int * noisy.height as int));
        assert(acc.den@ =~= zseq(noisy.width as int * noisy.height as int));
        assert(pairs.len() == gyl as int * gxl as int);
    }
    let mut iy: usize = 0;
    while iy < gyl
        invariant
            noisy.wf(),
            dct_size_ok(b as int),
            b < window <= MAX_SIDE,
            1 <= step <= b,
            1 <= maxm,
            t_q8 >= 0,
            1 <= sigma2_q16 <= 0x1_0000_0000,
            b <= noisy.width,
            b <= noisy.height,
            lx == noisy.width - b,
            ly == noisy.height - b,
            gxl == gx@.len(),
            gyl == gy@.len(),
            1 <= gxl <= 0x2001,
            1 <= gyl <= 0x2001,
            (gyl as int) * (gxl as int) <= 0x2001 * 0x2001,
            forall|k: int| 0 <= k < gxl ==> #[trigger] gx@[k] <= lx,
            forall|k: int| 0 <= k < gyl ==> #[trigger] gy@[k] <= ly,
            gx@[gxl - 1] == lx,
            gy@[gyl - 1] == ly,
            forall|px: int| 0 <= px < lx ==> #[trigger] grid_covers(gx@, px, step as int),
            forall|py: int| 0 <= py < ly ==> #[trigger] grid_covers(gy@, py, step as int),
            acc.wf(),
            acc.width == noisy.width,
            acc.height == noisy.height,
            iy <= gyl,
            acc.covers as int <= 16 * ((iy as int) * (gxl as int)),
            forall|px: int, py: int|
                0 <= px < noisy.width && 0 <= py < noisy.height && done_covered(
                    gx@,
                    gy@,
                    b as int,
                    iy as int,
                    0,
                    px,
                    py,
                ) ==> acc.den_at(px, py) >= 1,
            pairs == grid_pairs(gx@, gy@),
            pairs.len() == gyl as int * gxl as int,
            gs.len() == iy as int * gxl as int,
            forall|i: int|
                0 <= i < gs.len() ==> group_anchors_ok(
                    #[trigger] gs[i],
                    *noisy,
                    pairs[i],
                    b as int,
                    window as int,
                    tau_q as int,
                    maxm as int,
                ),
            acc.num@ == hard_fold_num(
                zseq(noisy.width as int * noisy.height as int),
                *noisy,
                pairs,
                gs,
                b as int,
                t_q8 as int,
                sigma2_q16 as int,
                noisy.width as int,
                gs.len() as int,
            ),
            acc.den@ == hard_fold_den(
                zseq(noisy.width as int * noisy.height as int),
                *noisy,
                pairs,
                gs,
                b as int,
                t_q8 as int,
                sigma2_q16 as int,
                noisy.width as int,
                gs.len() as int,
            ),
        decreases gyl - iy,
    {
        let mut ix: usize = 0;
        while ix < gxl
            invariant
                noisy.wf(),
                dct_size_ok(b as int),
                b < window <= MAX_SIDE,
                1 <= step <= b,
                1 <= maxm,
                t_q8 >= 0,
                1 <= sigma2_q16 <= 0x1_0000_0000,
                b <= noisy.width,
                b <= noisy.height,
                lx == noisy.width - b,
                ly == noisy.height - b,
                gxl == gx@.len(),
                gyl == gy@.len(),
                1 <= gxl <= 0x2001,
                1 <= gyl <= 0x2001,
                (gyl as int) * (gxl as int) <= 0x2001 * 0x2001,
                forall|k: int| 0 <= k < gxl ==> #[trigger] gx@[k] <= lx,
                forall|k: int| 0 <= k < gyl ==> #[trigger] gy@[k] <= ly,
                acc.wf(),
                acc.width == noisy.width,
                acc.height == noisy.height,
                iy < gyl,
                ix <= gxl,
                acc.covers as int <= 16 * ((iy as int) * (gxl as int) + ix as int),
                forall|px: int, py: int|
                    0 <= px < noisy.width && 0 <= py < noisy.height && done_covered(
                        gx@,
                        gy@,
                        b as int,
                        iy as int,
                        ix as int,
                        px,
                        py,
                    ) ==> acc.den_at(px, py) >= 1,
                pairs == grid_pairs(gx@, gy@),
                pairs.len() == gyl as int * gxl as int,
                gs.len() == iy as int * gxl as int + ix as int,
                forall|i: int|
                    0 <= i < gs.len() ==> group_anchors_ok(
                        #[trigger] gs[i],
                        *noisy,
                        pairs[i],
                        b as int,
                        window as int,
                        tau_q as int,
                        maxm as int,
                    ),
                acc.num@ == hard_fold_num(
                    zseq(noisy.width as int * noisy.height as int),
                    *noisy,
                    pairs,
                    gs,
                    b as int,
                    t_q8 as int,
                    sigma2_q16 as int,
                    noisy.width as int,
                    gs.len() as int,
                ),
                acc.den@ == hard_fold_den(
                    zseq(noisy.width as int * noisy.height as int),
                    *noisy,
                    pairs,
                    gs,
                    b as int,
                    t_q8 as int,
                    sigma2_q16 as int,
                    noisy.width as int,
                    gs.len() as int,
                ),
            decreases gxl - ix,
        {
            let rp = (gx[ix], gy[iy]);
            proof {
                assert((iy as int) * (gxl as int) + ix as int + 1 <= (gyl as int) * (gxl as int))
                    by (nonlinear_arith)
                    requires
                        0 <= (iy as int) < (gyl as int),
                        0 <= (ix as int) < (gxl as int),
                ;
                assert(16 * ((iy as int) * (gxl as int) + ix as int) + 16 <= 16 * ((gyl as int) * (
                gxl as int))) by (nonlinear_arith)
                    requires
                        (iy as int) * (gxl as int) + ix as int + 1 <= (gyl as int) * (gxl as int),
                ;
                assert(16 * ((gyl as int) * (gxl as int)) <= 16 * (0x2001 * 0x2001))
                    by (nonlinear_arith)
                    requires
                        (gyl as int) * (gxl as int) <= 0x2001 * 0x2001,
                ;
                lemma_pair_index(iy as int, ix as int, gxl as int);
                assert(pairs[gs.len() as int] == rp);
            }
            let ghost acc0 = acc;
            let ga = filter_group_hard(noisy, rp, b, window, maxm, tau_q, t_q8, sigma2_q16, &mut acc);
            proof {
                let gs2 = gs.push(ga@);
                lemma_fold_prefix(
                    zseq(noisy.width as int * noisy.height as int),
                    zseq(noisy.width as int * noisy.height as int),
                    *noisy,
                    pairs,
                    gs,
                    gs2,
                    b as int,
                    t_q8 as int,
                    sigma2_q16 as int,
                    noisy.width as int,
                    gs.len() as int,
                );
                assert(gs2[gs2.len() - 1] == ga@);
                gs = gs2;
            }
            proof {
                assert forall|px: int, py: int|
                    0 <= px < noisy.width && 0 <= py < noisy.height && done_covered(
                        gx@,
                        gy@,
                        b as int,
                        iy as int,
                        ix as int + 1,
                        px,
                        py,
                    ) implies acc.den_at(px, py) >= 1 by {
                    let (ky, kx) = choose|ky: int, kx: int|
                        #![trigger gy@[ky], gx@[kx]]
                        0 <= ky < gy@.len() && 0 <= kx < gx@.len() && (ky < iy as int || (ky
                            == iy as int && kx < ix as int + 1)) && gx@[kx] <= px < gx@[kx] + b
                            && gy@[ky] <= py < gy@[ky] + b;
                    if ky == iy as int && kx == ix as int {
                        assert(acc.den_at(px, py) >= 1);
                    } else {
                        assert(done_covered(gx@, gy@, b as int, iy as int, ix as int, px, py));
                        assert(acc0.den_at(px, py) >= 1);
                        assert(acc.den_at(px, py) >= acc0.den_at(px, py));
                    }
                }
            }
            ix = ix + 1;
        }
        proof {
            assert(16 * ((iy as int) * (gxl as int) + gxl as int) == 16 * ((iy as int + 1) * (
            gxl as int))) by (nonlinear_arith);
            assert((iy as int) * (gxl as int) + gxl as int == (iy as int + 1) * (gxl as int))
                by (nonlinear_arith);
            assert forall|px: int, py: int|
                0 <= px < noisy.width && 0 <= py < noisy.height && done_covered(
                    gx@,
                    gy@,
                    b as int,
                    iy as int + 1,
                    0,
                    px,
                    py,
                ) implies acc.den_at(px, py) >= 1 by {
                let (ky, kx) = choose|ky: int, kx: int|
                    #![trigger gy@[ky], gx@[kx]]
                    0 <= ky < gy@.len() && 0 <= kx < gx@.len() && (ky < iy as int + 1 || (ky
                        == iy as int + 1 && kx < 0)) && gx@[kx] <= px < gx@[kx] + b && gy@[ky] <= py
                        < gy@[ky] + b;
                assert(ky < iy as int || (ky == iy as int && kx < gxl as int));
                assert(done_covered(gx@, gy@, b as int, iy as int, gxl as int, px, py));
            }
        }
        iy = iy + 1;
    }
    proof {
        assert forall|px: int, py: int|
            0 <= px < noisy.width && 0 <= py < noisy.height implies acc.den_at(px, py) >= 1 by {
            let kx: int = if px < lx {
                assert(grid_covers(gx@, px, step as int));
                let k = choose|k: int| 0 <= k < gx@.len() && #[trigger] gx@[k] <= px < gx@[k] + step;
                k
            } else {
                gxl as int - 1
            };
            let ky: int = if py < ly {
                assert(grid_covers(gy@, py, step as int));
                let k = choose|k: int| 0 <= k < gy@.len() && #[trigger] gy@[k] <= py < gy@[k] + step;
                k
            } else {
                gyl as int - 1
            };
            assert(gx@[kx] <= px < gx@[kx] + b);
            assert(gy@[ky] <= py < gy@[ky] + b);
            assert(done_covered(gx@, gy@, b as int, gyl as int, 0, px, py));
        }
        assert(gs.len() == pairs.len());
        assert(hard_pass_post(
            gs,
            *noisy,
            b as int,
            window as int,
            step as int,
            maxm as int,
            tau_q as int,
            t_q8 as int,
            sigma2_q16 as int,
            acc.num@,
            acc.den@,
        ));
    }
    acc
}

/// The Wiener pass over one channel, matching against the basic estimate.
/// The positive-denominator guarantee holds here as well, and the content is
/// pinned the same way ([`wiener_pass_post`]).
pub fn wiener_pass(
    noisy: &Plane,
    basic: &Plane,
    b: usize,
    window: usize,
    step: usize,
    maxm: usize,
    tau_q: u64,
    sigma2_q16: u64,
) -> (acc: Accumulator)
    requires
        noisy.wf(),
        basic.wf(),
        basic.width == noisy.width,
        basic.height == noisy.height,
        dct_size_ok(b as int),
        b < window <= MAX_SIDE,
        1 <= step <= b,
        1 <= maxm,
        1 <= sigma2_q16 <= 0x1_0000_0000,
        b <= noisy.width,
        b <= noisy.height,
    ensures
        acc.wf(),
        acc.width == noisy.width,
        acc.height == noisy.height,
        forall|px: int, py: int|
            0 <= px < noisy.width && 0 <= py < noisy.height ==> acc.den_at(px, py) >= 1,
        exists|gs: Seq<Seq<(usize, usize)>>|
            wiener_pass_post(
                gs,
                *noisy,
                *basic,
                b as int,
                window as int,
                step as int,
                maxm as int,
                tau_q as int,
                sigma2_q16 as int,
                acc.num@,
                acc.den@,
            ),
{
    let mut acc = Accumulator::new(noisy.width, noisy.height);
    let lx = noisy.width - b;
    let ly = noisy.height - b;
    let gx = anchor_grid(lx, step);
    let gy = anchor_grid(ly, step);
    let gxl = gx.len();
    let gyl = gy.len();
    let ghost pairs = grid_pairs(gx@, gy@);
    let ghost mut gs: Seq<Seq<(usize, usize)>> = Seq::empty();
    proof {
        crate::fixed::lemma_mul_le(gyl as int, gxl as int, 0x2001, 0x2001);
        assert(acc.num@ =~= zseq(noisy.width as int * noisy.height as int));
        assert(acc.den@ =~= zseq(noisy.width as int * noisy.height as int));
        assert(pairs.len() == gyl as int * gxl as int);
    }
    let mut iy: usize = 0;
    while iy < gyl
        invariant
            noisy.wf(),
            basic.wf(),
            basic.width == noisy.width,
            basic.height == noisy.height,
            dct_size_ok(b as int),
            b < window <= MAX_SIDE,
            1 <= step <= b,
            1 <= maxm,
            1 <= sigma2_q16 <= 0x1_0000_0000,
            b <= noisy.width,
            b <= noisy.height,
            lx == noisy.width - b,
            ly == noisy.height - b,
            gxl == gx@.len(),
            gyl == gy@.len(),
            1 <= gxl <= 0x2001,
            1 <= gyl <= 0x2001,
            (gyl as int) * (gxl as int) <= 0x2001 * 0x2001,
            forall|k: int| 0 <= k < gxl ==> #[trigger] gx@[k] <= lx,
            forall|k: int| 0 <= k < gyl ==> #[trigger] gy@[k] <= ly,
            gx@[gxl - 1] == lx,
            gy@[gyl - 1] == ly,
            forall|px: int| 0 <= px < lx ==> #[trigger] grid_covers(gx@, px, step as int),
            forall|py: int| 0 <= py < ly ==> #[trigger] grid_covers(gy@, py, step as int),
            acc.wf(),
            acc.width == noisy.width,
            acc.height == noisy.height,
            iy <= gyl,
            acc.covers as int <= 16 * ((iy as int) * (gxl as int)),
            forall|px: int, py: int|
                0 <= px < noisy.width && 0 <= py < noisy.height && done_covered(
                    gx@,
                    gy@,
                    b as int,
                    iy as int,
                    0,
                    px,
                    py,
                ) ==> acc.den_at(px, py) >= 1,
            pairs == grid_pairs(gx@, gy@),
            pairs.len() == gyl as int * gxl as int,
            gs.len() == iy as int * gxl as int,
            forall|i: int|
                0 <= i < gs.len() ==> group_anchors_ok(
                    #[trigger] gs[i],
                    *basic,
                    pairs[i],
                    b as int,
                    window as int,
                    tau_q as int,
                    maxm as int,
                ),
            acc.num@ == wiener_fold_num(
                zseq(noisy.width as int * noisy.height as int),
                *noisy,
                *basic,
                pairs,
                gs,
                b as int,
                sigma2_q16 as int,
                noisy.width as int,
                gs.len() as int,
            ),
            acc.den@ == wiener_fold_den(
                zseq(noisy.width as int * noisy.height as int),
                *noisy,
                *basic,
                pairs,
                gs,
                b as int,
                sigma2_q16 as int,
                noisy.width as int,
                gs.len() as int,
            ),
        decreases gyl - iy,
    {
        let mut ix: usize = 0;
        while ix < gxl
            invariant
                noisy.wf(),
                basic.wf(),
                basic.width == noisy.width,
                basic.height == noisy.height,
                dct_size_ok(b as int),
                b < window <= MAX_SIDE,
                1 <= step <= b,
                1 <= maxm,
                1 <= sigma2_q16 <= 0x1_0000_0000,
                b <= noisy.width,
                b <= noisy.height,
                lx == noisy.width - b,
                ly == noisy.height - b,
                gxl == gx@.len(),
                gyl == gy@.len(),
                1 <= gxl <= 0x2001,
                1 <= gyl <= 0x2001,
                (gyl as int) * (gxl as int) <= 0x2001 * 0x2001,
                forall|k: int| 0 <= k < gxl ==> #[trigger] gx@[k] <= lx,
                forall|k: int| 0 <= k < gyl ==> #[trigger] gy@[k] <= ly,
                acc.wf(),
                acc.width == noisy.width,
                acc.height == noisy.height,
                iy < gyl,
                ix <= gxl,
                acc.covers as int <= 16 * ((iy as int) * (gxl as int) + ix as int),
                forall|px: int, py: int|
                    0 <= px < noisy.width && 0 <= py < noisy.height && done_covered(
                        gx@,
                        gy@,
                        b as int,
                        iy as int,
                        ix as int,
                        px,
                        py,
                    ) ==> acc.den_at(px, py) >= 1,
                pairs == grid_pairs(gx@, gy@),
                pairs.len() == gyl as int * gxl as int,
                gs.len() == iy as int * gxl as int + ix as int,
                forall|i: int|
                    0 <= i < gs.len() ==> group_anchors_ok(
                        #[trigger] gs[i],
                        *basic,
                        pairs[i],
                        b as int,
                        window as int,
                        tau_q as int,
                        maxm as int,
                    ),
                acc.num@ == wiener_fold_num(
                    zseq(noisy.width as int * noisy.height as int),
                    *noisy,
                    *basic,
                    pairs,
                    gs,
                    b as int,
                    sigma2_q16 as int,
                    noisy.width as int,
                    gs.len() as int,
                ),
                acc.den@ == wiener_fold_den(
                    zseq(noisy.width as int * noisy.height as int),
                    *noisy,
                    *basic,
                    pairs,
                    gs,
                    b as int,
                    sigma2_q16 as int,
                    noisy.width as int,
                    gs.len() as int,
                ),
            decreases gxl - ix,
        {
            let rp = (gx[ix], gy[iy]);
            proof {
                assert((iy as int) * (gxl as int) + ix as int + 1 <= (gyl as int) * (gxl as int))
                    by (nonlinear_arith)
                    requires
                        0 <= (iy as int) < (gyl as int),
                        0 <= (ix as int) < (gxl as int),
                ;
                assert(16 * ((iy as int) * (gxl as int) + ix as int) + 16 <= 16 * ((gyl as int) * (
                gxl as int))) by (nonlinear_arith)
                    requires
                        (iy as int) * (gxl as int) + ix as int + 1 <= (gyl as int) * (gxl as int),
                ;
                assert(16 * ((gyl as int) * (gxl as int)) <= 16 * (0x2001 * 0x2001))
                    by (nonlinear_arith)
                    requires
                        (gyl as int) * (gxl as int) <= 0x2001 * 0x2001,
                ;
            }
            proof {
                lemma_pair_index(iy as int, ix as int, gxl as int);
                assert(pairs[gs.len() as int] == rp);
            }
            let ghost acc0 = acc;
            let ga = filter_group_wiener(
                noisy,
                basic,
                rp,
                b,
                window,
                maxm,
                tau_q,
                sigma2_q16,
                &mut acc,
            );
            proof {
                let gs2 = gs.push(ga@);
                lemma_wiener_fold_prefix(
                    zseq(noisy.width as int * noisy.height as int),
                    zseq(noisy.width as int * noisy.height as int),
                    *noisy,
                    *basic,
                    pairs,
                    gs,
                    gs2,
                    b as int,
                    sigma2_q16 as int,
                    noisy.width as int,
                    gs.len() as int,
                );
                assert(gs2[gs2.len() - 1] == ga@);
                gs = gs2;
            }
            proof {
                assert forall|px: int, py: int|
                    0 <= px < noisy.width && 0 <= py < noisy.height && done_covered(
                        gx@,
                        gy@,
                        b as int,
                        iy as int,
                        ix as int + 1,
                        px,
                        py,
                    ) implies acc.den_at(px, py) >= 1 by {
                    let (ky, kx) = choose|ky: int, kx: int|
                        #![trigger gy@[ky], gx@[kx]]
                        0 <= ky < gy@.len() && 0 <= kx < gx@.len() && (ky < iy as int || (ky
                            == iy as int && kx < ix as int + 1)) && gx@[kx] <= px < gx@[kx] + b
                            && gy@[ky] <= py < gy@[ky] + b;
                    if ky == iy as int && kx == ix as int {
                        assert(acc.den_at(px, py) >= 1);
                    } else {
                        assert(done_covered(gx@, gy@, b as int, iy as int, ix as int, px, py));
                        assert(acc0.den_at(px, py) >= 1);
                        assert(acc.den_at(px, py) >= acc0.den_at(px, py));
                    }
                }
            }
            ix = ix + 1;
        }
        proof {
            assert(16 * ((iy as int) * (gxl as int) + gxl as int) == 16 * ((iy as int + 1) * (
            gxl as int))) by (nonlinear_arith);
            assert((iy as int) * (gxl as int) + gxl as int == (iy as int + 1) * (gxl as int))
                by (nonlinear_arith);
            assert forall|px: int, py: int|
                0 <= px < noisy.width && 0 <= py < noisy.height && done_covered(
                    gx@,
                    gy@,
                    b as int,
                    iy as int + 1,
                    0,
                    px,
                    py,
                ) implies acc.den_at(px, py) >= 1 by {
                let (ky, kx) = choose|ky: int, kx: int|
                    #![trigger gy@[ky], gx@[kx]]
                    0 <= ky < gy@.len() && 0 <= kx < gx@.len() && (ky < iy as int + 1 || (ky
                        == iy as int + 1 && kx < 0)) && gx@[kx] <= px < gx@[kx] + b && gy@[ky] <= py
                        < gy@[ky] + b;
                assert(ky < iy as int || (ky == iy as int && kx < gxl as int));
                assert(done_covered(gx@, gy@, b as int, iy as int, gxl as int, px, py));
            }
        }
        iy = iy + 1;
    }
    proof {
        assert forall|px: int, py: int|
            0 <= px < noisy.width && 0 <= py < noisy.height implies acc.den_at(px, py) >= 1 by {
            let kx: int = if px < lx {
                assert(grid_covers(gx@, px, step as int));
                let k = choose|k: int| 0 <= k < gx@.len() && #[trigger] gx@[k] <= px < gx@[k] + step;
                k
            } else {
                gxl as int - 1
            };
            let ky: int = if py < ly {
                assert(grid_covers(gy@, py, step as int));
                let k = choose|k: int| 0 <= k < gy@.len() && #[trigger] gy@[k] <= py < gy@[k] + step;
                k
            } else {
                gyl as int - 1
            };
            assert(gx@[kx] <= px < gx@[kx] + b);
            assert(gy@[ky] <= py < gy@[ky] + b);
            assert(done_covered(gx@, gy@, b as int, gyl as int, 0, px, py));
        }
        assert(gs.len() == pairs.len());
        assert(wiener_pass_post(
            gs,
            *noisy,
            *basic,
            b as int,
            window as int,
            step as int,
            maxm as int,
            tau_q as int,
            sigma2_q16 as int,
            acc.num@,
            acc.den@,
        ));
    }
    acc
}

/// Exact duplicate of a plane.
pub fn copy_plane(src: &Plane) -> (r: Plane)
    requires
        src.wf(),
    ensures
        r.wf(),
        r.width == src.width,
        r.height == src.height,
        r.data@ == src.data@,
{
    let n = src.data.len();
    let mut data: Vec<i64> = Vec::new();
    let mut i: usize = 0;
    while i < n
        invariant
            src.wf(),
            n == src.data@.len(),
            i <= n,
            data@.len() == i,
            forall|k: int| 0 <= k < i ==> #[trigger] data@[k] == src.data@[k],
        decreases n - i,
    {
        data.push(src.data[i]);
        i = i + 1;
    }
    proof {
        assert(data@ =~= src.data@);
    }
    Plane { data, width: src.width, height: src.height }
}

/// The channel output is the two-pass pipeline's result for this input and
/// configuration: a hard-thresholding pass folded over the anchor grid,
/// divided into the basic estimate, then a Wiener pass matched on that
/// estimate, divided again.
pub open spec fn channel_denoised_ok(out: Seq<i64>, noisy: Plane, p: Bm3dParams) -> bool {
    let b = p.block_size as int;
    let t = ((p.lambda3d_q8 as int) * (p.sigma_q8 as int)) / 256;
    let s2 = (p.sigma_q8 as int) * (p.sigma_q8 as int);
    let tau1 = (p.tau1 as int) * (b * b) * 1024;
    let tau2 = (p.tau2 as int) * (b * b) * 1024;
    exists|
        gs1: Seq<Seq<(usize, usize)>>,
        n1: Seq<i128>,
        d1: Seq<i128>,
        basicp: Plane,
        gs2: Seq<Seq<(usize, usize)>>,
        n2: Seq<i128>,
        d2: Seq<i128>,
    |
        #![trigger hard_pass_post(
            gs1,
            noisy,
            b,
            p.window1 as int,
            p.step1 as int,
            p.max_match1 as int,
            tau1,
            t,
            s2,
            n1,
            d1,
        ), wiener_pass_post(
            gs2,
            noisy,
            basicp,
            b,
            p.window2 as int,
            p.step2 as int,
            p.max_match2 as int,
            tau2,
            s2,
            n2,
            d2,
        )]
        {
            &&& hard_pass_post(
                gs1,
                noisy,
                b,
                p.window1 as int,
                p.step1 as int,
                p.max_match1 as int,
                tau1,
                t,
                s2,
                n1,
                d1,
            )
            &&& basicp.width == noisy.width
            &&& basicp.height == noisy.height
            &&& basicp.data@.len() == noisy.data@.len()
            &&& n1.len() == noisy.data@.len()
            &&& forall|i: int|
                0 <= i < basicp.data@.len() ==> #[trigger] basicp.data@[i] as int
                    == Accumulator::agg_pixel_spec(n1[i] as int, d1[i] as int, noisy.data@[i] as int)
            &&& wiener_pass_post(
                gs2,
                noisy,
                basicp,
                b,
                p.window2 as int,
                p.step2 as int,
                p.max_match2 as int,
                tau2,
                s2,
                n2,
                d2,
            )
            &&& out.len() == noisy.data@.len()
            &&& n2.len() == noisy.data@.len()
            &&& forall|i: int|
                0 <= i < out.len() ==> #[trigger] out[i] as int == Accumulator::agg_pixel_spec(
                    n2[i] as int,
                    d2[i] as int,
                    basicp.data@[i] as int,
                )
        }
}

/// Denoise one channel: the hard-thresholding pass builds the basic
/// estimate, the Wiener pass refines it.
pub fn denoise_channel(noisy: &Plane, p: &Bm3dParams) -> (out: Plane)
    requires
        noisy.wf(),
        params_valid(*p, noisy.width as int, noisy.height as int),
    ensures
        out.wf(),
        out.width == noisy.width,
        out.height == noisy.height,
        channel_denoised_ok(out.data@, *noisy, *p),
{
    let b = p.block_size;
    proof {
        crate::fixed::lemma_mul_le(p.lambda3d_q8 as int, p.sigma_q8 as int, 0x1_0000_0000, 0x1_0000);
        crate::fixed::lemma_mul_le(p.sigma_q8 as int, p.sigma_q8 as int, 0x1_0000, 0x1_0000);
        assert((b as int) * (b as int) <= 64) by (nonlinear_arith)
            requires
                0 <= (b as int) <= 8,
        ;
        crate::fixed::lemma_mul_le(p.tau1 as int, (b as int) * (b as int), 0x1_0000_0000, 64);
        crate::fixed::lemma_mul_le(p.tau2 as int, (b as int) * (b as int), 0x1_0000_0000, 64);
        assert(1 <= (p.sigma_q8 as int) * (p.sigma_q8 as int)) by (nonlinear_arith)
            requires
                1 <= p.sigma_q8 as int,
        ;
    }
    let t_q8 = ((p.lambda3d_q8 as u64) * (p.sigma_q8 as u64) / 256) as i64;
    let sigma2_q16 = (p.sigma_q8 as u64) * (p.sigma_q8 as u64);
    let tau1_q = (p.tau1 as u64) * ((b * b) as u64) * 1024;
    let tau2_q = (p.tau2 as u64) * ((b * b) as u64) * 1024;
    let acc1 = hard_pass(noisy, b, p.window1, p.step1, p.max_match1, tau1_q, t_q8, sigma2_q16);
    let basic = acc1.finalize(noisy);
    let acc2 = wiener_pass(
        noisy,
        &basic,
        b,
        p.window2,
        p.step2,
        p.max_match2,
        tau2_q,
        sigma2_q16,
    );
    let out = acc2.finalize(&basic);
    proof {
        let bi = b as int;
        let t = ((p.lambda3d_q8 as int) * (p.sigma_q8 as int)) / 256;
        let s2 = (p.sigma_q8 as int) * (p.sigma_q8 as int);
        let tau1 = (p.tau1 as int) * (bi * bi) * 1024;
        let tau2 = (p.tau2 as int) * (bi * bi) * 1024;
        assert(tau1_q as int == tau1);
        assert(tau2_q as int == tau2);
        let gs1 = choose|gs: Seq<Seq<(usize, usize)>>|
            hard_pass_post(
                gs,
                *noisy,
                bi,
                p.window1 as int,
                p.step1 as int,
                p.max_match1 as int,
                tau1,
                t_q8 as int,
                sigma2_q16 as int,
                acc1.num@,
                acc1.den@,
            );
        let gs2 = choose|gs: Seq<Seq<(usize, usize)>>|
            wiener_pass_post(
                gs,
                *noisy,
                basic,
                bi,
                p.window2 as int,
                p.step2 as int,
                p.max_match2 as int,
                tau2,
                sigma2_q16 as int,
                acc2.num@,
                acc2.den@,
            );
        assert(t_q8 as int == t);
        assert(sigma2_q16 as int == s2);
        assert(hard_pass_post(
            gs1,
            *noisy,
            bi,
            p.window1 as int,
            p.step1 as int,
            p.max_match1 as int,
            tau1,
            t,
            s2,
            acc1.num@,
            acc1.den@,
        ));
        assert(wiener_pass_post(
            gs2,
            *noisy,
            basic,
            bi,
            p.window2 as int,
            p.step2 as int,
            p.max_match2 as int,
            tau2,
            s2,
            acc2.num@,
            acc2.den@,
        ));
        assert(channel_denoised_ok(out.data@, *noisy, *p)) by {
            assert({
                &&& hard_pass_post(
                    gs1,
                    *noisy,
                    bi,
                    p.window1 as int,
                    p.step1 as int,
                    p.max_match1 as int,
                    tau1,
                    t,
                    s2,
                    acc1.num@,
                    acc1.den@,
                )
                &&& basic.width == noisy.width
                &&& basic.height == noisy.height
                &&& basic.data@.len() == noisy.data@.len()
                &&& acc1.num@.len() == noisy.data@.len()
                &&& forall|i: int|
                    0 <= i < basic.data@.len() ==> #[trigger] basic.data@[i] as int
                        == Accumulator::agg_pixel_spec(
                        acc1.num@[i] as int,
                        acc1.den@[i] as int,
                        noisy.data@[i] as int,
                    )
                &&& wiener_pass_post(
                    gs2,
                    *noisy,
                    basic,
                    bi,
                    p.window2 as int,
                    p.step2 as int,
                    p.max_match2 as int,
                    tau2,
                    s2,
                    acc2.num@,
                    acc2.den@,
                )
                &&& out.data@.len() == noisy.data@.len()
                &&& acc2.num@.len() == noisy.data@.len()
                &&& forall|i: int|
                    0 <= i < out.data@.len() ==> #[trigger] out.data@[i] as int
                        == Accumulator::agg_pixel_spec(
                        acc2.num@[i] as int,
                        acc2.den@[i] as int,
                        basic.data@[i] as int,
                    )
            });
        }
    }
    out
}

/// The plane data is the blend of the input channel with a pure denoised
/// estimate of it, as the pipeline's blend step produces.
pub open spec fn channel_blended_ok(out: Seq<i64>, noisy: Plane, p: Bm3dParams) -> bool {
    exists|mid: Seq<i64>|
        {
            &&& #[trigger] channel_denoised_ok(mid, noisy, p)
            &&& out.len() == noisy.data@.len()
            &&& mid.len() == noisy.data@.len()
            &&& forall|i: int|
                0 <= i < out.len() ==> #[trigger] out[i] as int == crate::aggregate::blend_spec(
                    noisy.data@[i] as int,
                    mid[i] as int,
                    p.mix_q8 as int,
                )
        }
}

/// What [`denoise`] promises of a successful result: the dimensions are
/// kept; a blend factor of zero returns the input bit-exactly; in
/// luminance-only mode the chroma planes pass through bit-exactly; and
/// every denoised channel is the blend of its input with the two-pass
/// pipeline's estimate for it.
pub open spec fn denoised_image_ok(out: Bm3dImage, img: Bm3dImage, params: Bm3dParams) -> bool {
    &&& out.wf()
    &&& out.width == img.width
    &&& out.height == img.height
    &&& (params.mix_q8 == 0 ==> forall|c: int|
        0 <= c < 3 ==> (#[trigger] out.planes@[c]).data@ == img.planes@[c].data@)
    &&& (params.luminance_only ==> out.planes@[1].data@ == img.planes@[1].data@
        && out.planes@[2].data@ == img.planes@[2].data@)
    &&& forall|c: int|
        0 <= c < 3 && (c == 0 || !params.luminance_only) ==> channel_blended_ok(
            (#[trigger] out.planes@[c]).data@,
            img.planes@[c],
            params,
        )
}

/// Denoise an image in the working planar representation.
///
/// Configuration errors are detected before any work and reported exactly:
/// the call fails if and only if the configuration is invalid for the
/// image.  On success the output has the input's dimensions; with a blend
/// factor of zero the output equals the input sample for sample, and in
/// luminance-only mode the chroma planes pass through bit-exactly.
pub fn denoise(img: &Bm3dImage, params: &Bm3dParams) -> (res: Result<
    Bm3dImage,
    ImageProcessingError,
>)
    requires
        img.wf(),
    ensures
        res is Err <==> !params_valid(*params, img.width as int, img.height as int),
        res matches Err(e) ==> e is InvalidParameter,
        res matches Ok(out) ==> denoised_image_ok(out, *img, *params),
{
    proof {
        assert(img.planes@[0].wf() && img.planes@[0].width == img.width && img.planes@[0].height
            == img.height);
    }
    match validate_params(params, img.width, img.height) {
        Err(e) => {
            return Err(e);
        },
        Ok(()) => {},
    }
    let mut planes: Vec<Plane> = Vec::new();
    let mut c: usize = 0;
    while c < 3
        invariant
            img.wf(),
            params_valid(*params, img.width as int, img.height as int),
            c <= 3,
            planes@.len() == c,
            forall|i: int|
                0 <= i < c ==> (#[trigger] planes@[i]).wf() && planes@[i].width == img.width
                    && planes@[i].height == img.height,
            params.mix_q8 == 0 ==> forall|i: int|
                0 <= i < c ==> (#[trigger] planes@[i]).data@ == img.planes@[i].data@,
            params.luminance_only ==> forall|i: int|
                1 <= i < c ==> (#[trigger] planes@[i]).data@ == img.planes@[i].data@,
            forall|i: int|
                0 <= i < c && (i == 0 || !params.luminance_only) ==> channel_blended_ok(
                    (#[trigger] planes@[i]).data@,
                    img.planes@[i],
                    *params,
                ),
        decreases 3 - c,
    {
        let src = &img.planes[c];
        if c == 0 || !params.luminance_only {
            let den = denoise_channel(src, params);
            let blended = match aggregate(&src.data, &den.data, params.mix_q8) {
                Ok(v) => v,
                Err(_) => {
                    proof {
                        assert(false);
                    }
                    return Err(ImageProcessingError::Other("blend failed"));
                },
            };
            proof {
                assert(channel_blended_ok(blended@, img.planes@[c as int], *params)) by {
                    assert({
                        &&& channel_denoised_ok(den.data@, img.planes@[c as int], *params)
                        &&& blended@.len() == img.planes@[c as int].data@.len()
                        &&& den.data@.len() == img.planes@[c as int].data@.len()
                        &&& forall|i: int|
                            0 <= i < blended@.len() ==> #[trigger] blended@[i] as int
                                == crate::aggregate::blend_spec(
                                img.planes@[c as int].data@[i] as int,
                                den.data@[i] as int,
                                params.mix_q8 as int,
                            )
                    });
                }
            }
            planes.push(Plane { data: blended, width: img.width, height: img.height });
        } else {
            planes.push(copy_plane(src));
        }
        c = c + 1;
    }
    let out = Bm3dImage { planes, width: img.width, height: img.height };
    proof {
        assert(denoised_image_ok(out, *img, *params));
    }
    Ok(out)
}

/// The output bytes of [`denoise_rgb8`]: the input converted to the
/// working luminance/chrominance representation with the BT.601 integer
/// formulas, denoised as [`denoise`] promises, and converted back.
pub open spec fn rgb8_denoised_ok(
    v: Seq<u8>,
    rgb: Seq<u8>,
    w: int,
    h: int,
    params: Bm3dParams,
) -> bool {
    exists|imgp: Bm3dImage, outp: Bm3dImage| #[trigger] rgb8_witness_ok(
        v,
        rgb,
        w,
        h,
        params,
        imgp,
        outp,
    )
}

/// One witness pair for [`rgb8_denoised_ok`]: the converted working image
/// and the denoised working image.
pub open spec fn rgb8_witness_ok(
    v: Seq<u8>,
    rgb: Seq<u8>,
    w: int,
    h: int,
    params: Bm3dParams,
    imgp: Bm3dImage,
    outp: Bm3dImage,
) -> bool {
    {
            &&& denoised_image_ok(outp, imgp, params)
            &&& imgp.wf()
            &&& imgp.width == w
            &&& imgp.height == h
            &&& forall|i: int|
                0 <= i < w * h ==> (#[trigger] imgp.planes@[0].data@[i]) as int == 256
                    * crate::params::ycbcr_y_spec(
                    rgb[3 * i] as int,
                    rgb[3 * i + 1] as int,
                    rgb[3 * i + 2] as int,
                )
            &&& forall|i: int|
                0 <= i < w * h ==> (#[trigger] imgp.planes@[1].data@[i]) as int == 256
                    * crate::params::ycbcr_cb_spec(
                    rgb[3 * i] as int,
                    rgb[3 * i + 1] as int,
                    rgb[3 * i + 2] as int,
                )
            &&& forall|i: int|
                0 <= i < w * h ==> (#[trigger] imgp.planes@[2].data@[i]) as int == 256
                    * crate::params::ycbcr_cr_spec(
                    rgb[3 * i] as int,
                    rgb[3 * i + 1] as int,
                    rgb[3 * i + 2] as int,
                )
            &&& v.len() == 3 * (w * h)
            &&& forall|j: int|
                0 <= j < w * h ==> ({
                    let y = Plane::byte_of(outp.planes@[0].data@[j] as int);
                    let cb = Plane::byte_of(outp.planes@[1].data@[j] as int);
                    let cr = Plane::byte_of(outp.planes@[2].data@[j] as int);
                    &&& (#[trigger] v[3 * j]) as int == crate::params::rgb_r_spec(y, cb, cr)
                    &&& v[3 * j + 1] as int == crate::params::rgb_g_spec(y, cb, cr)
                    &&& v[3 * j + 2] as int == crate::params::rgb_b_spec(y, cb, cr)
                })
    }
}

/// Denoise an 8-bit interleaved RGB buffer.  The buffer is converted to the
/// working luminance/chrominance representation, denoised, and converted
/// back; its length must be exactly `3 * width * height`.
pub fn denoise_rgb8(rgb: &Vec<u8>, width: usize, height: usize, params: &Bm3dParams) -> (res:
    Result<Vec<u8>, ImageProcessingError>)
    requires
        width <= MAX_SIDE,
        height <= MAX_SIDE,
    ensures
        res is Err <==> (rgb@.len() != 3 * (width as int * height as int) || !params_valid(
            *params,
            width as int,
            height as int,
        )),
        res matches Ok(v) ==> v@.len() == 3 * (width as int * height as int),
        res matches Ok(v) ==> rgb8_denoised_ok(v@, rgb@, width as int, height as int, *params),
{
    proof {
        crate::fixed::lemma_mul_le(width as int, height as int, 0x2000, 0x2000);
    }
    let total = width * height;
    if rgb.len() != 3 * total {
        return Err(ImageProcessingError::UnsupportedFormat("buffer length mismatch"));
    }
    let cfg = crate::params::Bm3d::new(params.sigma_q8, params.lambda3d_q8, params.block_size,
        params.window1, false, params.mix_q8);
    let mut yb: Vec<u8> = Vec::new();
    let mut cbb: Vec<u8> = Vec::new();
    let mut crb: Vec<u8> = Vec::new();
    let mut i: usize = 0;
    while i < total
        invariant
            rgb@.len() == 3 * total,
            total <= 0x400_0000,
            !cfg.luminance_only,
            i <= total,
            yb@.len() == i,
            cbb@.len() == i,
            crb@.len() == i,
            forall|k: int|
                0 <= k < i ==> (#[trigger] yb@[k]) as int == crate::params::ycbcr_y_spec(
                    rgb@[3 * k] as int,
                    rgb@[3 * k + 1] as int,
                    rgb@[3 * k + 2] as int,
                ),
            forall|k: int|
                0 <= k < i ==> (#[trigger] cbb@[k]) as int == crate::params::ycbcr_cb_spec(
                    rgb@[3 * k] as int,
                    rgb@[3 * k + 1] as int,
                    rgb@[3 * k + 2] as int,
                ),
            forall|k: int|
                0 <= k < i ==> (#[trigger] crb@[k]) as int == crate::params::ycbcr_cr_spec(
                    rgb@[3 * k] as int,
                    rgb@[3 * k + 1] as int,
                    rgb@[3 * k + 2] as int,
                ),
        decreases total - i,
    {
        let (y, cb, cr) = cfg.rgb_to_ycbcr_fast(rgb[3 * i], rgb[3 * i + 1], rgb[3 * i + 2]);
        yb.push(y);
        cbb.push(cb);
        crb.push(cr);
        i = i + 1;
    }
    let yp = match Plane::from_bytes(&yb, width, height) {
        Some(p) => p,
        None => {
            proof {
                assert(false);
            }
            return Err(ImageProcessingError::ColorConversionError);
        },
    };
    let cbp = match Plane::from_bytes(&cbb, width, height) {
        Some(p) => p,
        None => {
            proof {
                assert(false);
            }
            return Err(ImageProcessingError::ColorConversionError);
        },
    };
    let crp = match Plane::from_bytes(&crb, width, height) {
        Some(p) => p,
        None => {
            proof {
                assert(false);
            }
            return Err(ImageProcessingError::ColorConversionError);
        },
    };
    let image = match Bm3dImage::new(yp, cbp, crp) {
        Some(im) => im,
        None => {
            proof {
                assert(false);
            }
            return Err(ImageProcessingError::ColorConversionError);
        },
    };
    let out = match denoise(&image, params) {
        Ok(o) => o,
        Err(e) => {
            return Err(e);
        },
    };
    let oy = out.planes[0].to_bytes();
    let ocb = out.planes[1].to_bytes();
    let ocr = out.planes[2].to_bytes();
    let mut result: Vec<u8> = Vec::new();
    let mut j: usize = 0;
    while j < total
        invariant
            oy@.len() == total,
            ocb@.len() == total,
            ocr@.len() == total,
            j <= total,
            result@.len() == 3 * j,
            total <= 0x400_0000,
            forall|k: int|
                0 <= k < j ==> (#[trigger] result@[3 * k]) as int == crate::params::rgb_r_spec(
                    oy@[k] as int,
                    ocb@[k] as int,
                    ocr@[k] as int,
                ) && result@[3 * k + 1] as int == crate::params::rgb_g_spec(
                    oy@[k] as int,
                    ocb@[k] as int,
                    ocr@[k] as int,
                ) && result@[3 * k + 2] as int == crate::params::rgb_b_spec(
                    oy@[k] as int,
                    ocb@[k] as int,
                    ocr@[k] as int,
                ),
        decreases total - j,
    {
        let (r, g, b) = cfg.ycbcr_to_rgb_fast(oy[j], ocb[j], ocr[j]);
        result.push(r);
        result.push(g);
        result.push(b);
        proof {
            assert forall|k: int|
                0 <= k < j + 1 implies (#[trigger] result@[3 * k]) as int
                == crate::params::rgb_r_spec(oy@[k] as int, ocb@[k] as int, ocr@[k] as int)
                && result@[3 * k + 1] as int == crate::params::rgb_g_spec(
                oy@[k] as int,
                ocb@[k] as int,
                ocr@[k] as int,
            ) && result@[3 * k + 2] as int == crate::params::rgb_b_spec(
                oy@[k] as int,
                ocb@[k] as int,
                ocr@[k] as int,
            ) by {
                if k < j {
                    assert(result@[3 * k] == result@.subrange(0, 3 * j as int)[3 * k]);
                }
            }
        }
        j = j + 1;
    }
    proof {
        assert(denoised_image_ok(out, image, *params));
        assert(image.wf() && image.width == width as int && image.height == height as int);
        assert(forall|i: int|
            0 <= i < width as int * height as int ==> (#[trigger] image.planes@[0].data@[i]) as int
                == 256 * crate::params::ycbcr_y_spec(
                rgb@[3 * i] as int,
                rgb@[3 * i + 1] as int,
                rgb@[3 * i + 2] as int,
            ));
        assert(result@.len() == 3 * (width as int * height as int));
        assert(forall|j2: int|
            0 <= j2 < width as int * height as int ==> (#[trigger] result@[3 * j2]) as int
                == crate::params::rgb_r_spec(
                Plane::byte_of(out.planes@[0].data@[j2] as int),
                Plane::byte_of(out.planes@[1].data@[j2] as int),
                Plane::byte_of(out.planes@[2].data@[j2] as int),
            ));
        assert(rgb8_witness_ok(
            result@,
            rgb@,
            width as int,
            height as int,
            *params,
            image,
            out,
        ));
        assert(rgb8_denoised_ok(result@, rgb@, width as int, height as int, *params));
    }
    Ok(result)
}

/// Toward the identity on flat input: a constant block pushed through the
/// forward transform, hard thresholding and the inverse transform comes out
/// constant again.  The transform of a flat block concentrates in its DC
/// coefficient, thresholding decides only whether that one coefficient
/// survives, and the inverse of a lone DC coefficient is flat; fixed-point
/// rounding can shift the flat level but never introduce structure.
pub proof fn lemma_flat_block_stays_flat(v: i64, n: int, t: int)
    requires
        dct_size_ok(n),
        t >= 1,
    ensures
        ({
            let filtered = crate::dct::idct2d_spec(
                crate::hard::block_thr_spec(
                    crate::dct::dct2d_spec(crate::dct::const_block(v, n), n),
                    t,
                ),
                n,
            );
            forall|r1: int, c1: int, r2: int, c2: int|
                0 <= r1 < n && 0 <= c1 < n && 0 <= r2 < n && 0 <= c2 < n
                    ==> #[trigger] filtered[r1][c1] == #[trigger] filtered[r2][c2]
        }),
{
    let fwd = crate::dct::dct2d_spec(crate::dct::const_block(v, n), n);
    crate::dct::lemma_dct2d_of_constant(v, n);
    let d0 = fwd[0][0];
    let d1: i64 = if crate::hard::kept_spec(d0 as int, t) {
        d0
    } else {
        0
    };
    let thr = crate::hard::block_thr_spec(fwd, t);
    assert(thr =~~= crate::dct::dc_block(d1, n)) by {
        assert forall|r: int, c: int|
            0 <= r < n && 0 <= c < n implies thr[r][c] == crate::dct::dc_block(d1, n)[r][c] by {
            if r == 0 && c == 0 {
            } else {
                assert(fwd[r][c] == 0);
                assert(!crate::hard::kept_spec(0, t));
            }
        }
    }
    crate::dct::lemma_idct2d_of_dc(d1, n);
}

/// A group of `n` identical constant layers.
pub open spec fn const_group(v: i64, n: int, b: int) -> Seq<Seq<Seq<i64>>> {
    Seq::new(n as nat, |k: int| crate::dct::const_block(v, b))
}

/// A group whose first layer is `layer0` and whose other layers are zero
/// blocks.
pub open spec fn dc_group(layer0: Seq<Seq<i64>>, n: int, b: int) -> Seq<Seq<Seq<i64>>> {
    Seq::new(
        n as nat,
        |k: int|
            if k == 0 {
                layer0
            } else {
                crate::dct::const_block(0, b)
            },
    )
}

/// Toward the identity on flat input: a group of identical constant blocks
/// pushed through the whole collaborative chain -- per-layer forward
/// transform, across-stack transform, hard thresholding, inverse
/// across-stack transform and per-layer inverse transform -- comes out as a
/// group in which every sample of every layer holds one and the same value.
/// The filter can shift the flat level only through fixed-point rounding
/// and the survival of the single DC coefficient; it never invents
/// structure on flat input.
pub proof fn lemma_flat_group_stays_flat(v: i64, n: int, b: int, t: int)
    requires
        stack_size_ok(n),
        dct_size_ok(b),
        t >= 1,
    ensures
        ({
            let g0 = const_group(v, n, b);
            let filtered = layers_spec(
                wht_group_spec(
                    group_thr_spec(wht_group_spec(layers_spec(g0, n, b, true), n, b), n, t),
                    n,
                    b,
                ),
                n,
                b,
                false,
            );
            forall|k1: int, r1: int, c1: int, k2: int, r2: int, c2: int|
                0 <= k1 < n && 0 <= r1 < b && 0 <= c1 < b && 0 <= k2 < n && 0 <= r2 < b && 0 <= c2
                    < b ==> #[trigger] filtered[k1][r1][c1] == #[trigger] filtered[k2][r2][c2]
        }),
{
    let g0 = const_group(v, n, b);
    let g1 = layers_spec(g0, n, b, true);
    // Stage 1: each layer's transform concentrates in its DC coefficient.
    crate::dct::lemma_dct2d_of_constant(v, b);
    let fwd = crate::dct::dct2d_spec(crate::dct::const_block(v, b), b);
    let d0 = fwd[0][0];
    assert forall|k: int| 0 <= k < n implies #[trigger] g1[k] =~~= crate::dct::dc_block(
        d0,
        b,
    ) by {
        assert(g1[k] == fwd);
    }
    // Stage 2: across the stack, a constant column keeps its content in the
    // first layer and cancels elsewhere.
    let g2 = wht_group_spec(g1, n, b);
    let e0: i64 = sat15_spec(crate::haar::wht_norm(n) * (n * (d0 as int))) as i64;
    assert(g2 =~~= dc_group(crate::dct::dc_block(e0, b), n, b)) by {
        assert forall|k: int, r: int, c: int|
            0 <= k < n && 0 <= r < b && 0 <= c < b implies #[trigger] g2[k][r][c] == dc_group(
            crate::dct::dc_block(e0, b),
            n,
            b,
        )[k][r][c] by {
            let col = crate::haar::stack_col(g1, r, c);
            assert(col.len() == n);
            assert(g2[k][r][c] as int == crate::haar::wht1d_spec(col, k as u32));
            let x: i64 = if r == 0 && c == 0 {
                d0
            } else {
                0
            };
            assert forall|tt: int| 0 <= tt < col.len() implies #[trigger] col[tt] == x by {
                assert(g1[tt] =~~= crate::dct::dc_block(d0, b));
                assert(col[tt] == g1[tt][r][c]);
            }
            crate::haar::lemma_wht_dot_const(col, x, k as u32, n);
            crate::haar::lemma_wht_sign_sum(n, k as u32);
            if k == 0 {
                assert(crate::haar::wht_dot(col, 0u32, n) == x * n) by {
                    assert(x as int * n == n * x) by (nonlinear_arith);
                }
                if r == 0 && c == 0 {
                    assert(x == d0);
                    assert((x as int) * n == n * (d0 as int)) by (nonlinear_arith)
                        requires
                            x as int == d0 as int,
                    ;
                    assert(g2[k][r][c] as int == sat15_spec(
                        crate::haar::wht_norm(n) * (n * (d0 as int)),
                    ));
                } else {
                    assert(0 as int * n == 0) by (nonlinear_arith);
                    assert(sat15_spec(crate::haar::wht_norm(n) * 0) == 0);
                    assert(g2[k][r][c] == 0);
                }
            } else {
                assert(x as int * 0 == 0) by (nonlinear_arith);
                assert(sat15_spec(crate::haar::wht_norm(n) * 0) == 0);
                assert(g2[k][r][c] == 0);
            }
        }
    }
    // Stage 3: thresholding leaves the zeros alone and decides only whether
    // the DC coefficient survives.
    let g3 = group_thr_spec(g2, n, t);
    let e1: i64 = if crate::hard::kept_spec(e0 as int, t) {
        e0
    } else {
        0
    };
    assert(g3 =~~= dc_group(crate::dct::dc_block(e1, b), n, b)) by {
        assert forall|k: int, r: int, c: int|
            0 <= k < n && 0 <= r < b && 0 <= c < b implies #[trigger] g3[k][r][c] == dc_group(
            crate::dct::dc_block(e1, b),
            n,
            b,
        )[k][r][c] by {
            assert(!crate::hard::kept_spec(0, t));
        }
    }
    // Stage 4: the inverse across-stack transform spreads the first layer
    // uniformly over the stack.
    let g4 = wht_group_spec(g3, n, b);
    let e2: i64 = sat15_spec(crate::haar::wht_norm(n) * (e1 as int)) as i64;
    assert(g4 =~~= const_stack_of(crate::dct::dc_block(e2, b), n)) by {
        assert forall|k: int, r: int, c: int|
            0 <= k < n && 0 <= r < b && 0 <= c < b implies #[trigger] g4[k][r][c]
            == const_stack_of(crate::dct::dc_block(e2, b), n)[k][r][c] by {
            let col = crate::haar::stack_col(g3, r, c);
            let x: i64 = if r == 0 && c == 0 {
                e1
            } else {
                0
            };
            assert(col[0] == x);
            assert(forall|tt: int| 1 <= tt < col.len() ==> #[trigger] col[tt] == 0);
            crate::haar::lemma_wht_dot_first(col, x, k as u32, n);
            if !(r == 0 && c == 0) {
                assert(sat15_spec(crate::haar::wht_norm(n) * 0) == 0);
            }
        }
    }
    // Stage 5: the inverse per-layer transform of a lone DC coefficient is
    // a constant block, the same one in every layer.
    crate::dct::lemma_idct2d_of_dc(e2, b);
    let filtered = layers_spec(g4, n, b, false);
    let c0 = crate::dct::dct_coef(b, 0, 0);
    let e3 = sat15_spec(sat15_spec((e2 as int) * c0) * c0);
    assert forall|k1: int, r1: int, c1: int, k2: int, r2: int, c2: int|
        0 <= k1 < n && 0 <= r1 < b && 0 <= c1 < b && 0 <= k2 < n && 0 <= r2 < b && 0 <= c2
            < b implies #[trigger] filtered[k1][r1][c1] == #[trigger] filtered[k2][r2][c2] by {
        assert(g4[k1] == crate::dct::dc_block(e2, b));
        assert(g4[k2] == crate::dct::dc_block(e2, b));
        assert(filtered[k1][r1][c1] as int == e3);
        assert(filtered[k2][r2][c2] as int == e3);
    }
}

/// A group of `n` copies of one layer.
pub open spec fn const_stack_of(layer: Seq<Seq<i64>>, n: int) -> Seq<Seq<Seq<i64>>> {
    Seq::new(n as nat, |k: int| layer)
}

} // verus!