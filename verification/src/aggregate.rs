//! Weighted overlap-add aggregation and final blending.

use vstd::prelude::*;

use crate::error::Bm3dError;
use crate::fixed::{clamp_spec, lemma_distinct_index, lemma_mul_bound, VAL_LIMIT};
use crate::image::{Plane, MAX_SIDE, PIX_MAX_Q8};

verus! {

/// Largest aggregation weight.
pub const W_CAP: u64 = 0x10_0000;

/// Largest number of patch contributions one accumulator accepts.
pub const COVERS_MAX: u64 = 0x100_0000_0000;

/// One blended sample: `((256 - m) * o + m * r + 128) / 256`.
pub open spec fn blend_spec(o: int, r: int, m: int) -> int {
    ((256 - m) * o + m * r + 128) / 256
}

/// Blending with weight 0 or 256 returns one of its inputs exactly.
pub proof fn lemma_blend_ends(o: int, r: int, m: int)
    requires
        m == 0 || m == 256,
    ensures
        m == 0 ==> blend_spec(o, r, m) == o,
        m == 256 ==> blend_spec(o, r, m) == r,
{
    if m == 0 {
        assert((256 * o + 128) / 256 == o) by (nonlinear_arith);
    } else {
        assert((256 * r + 128) / 256 == r) by (nonlinear_arith);
    }
}

/// Blending a value with itself returns it exactly.
pub proof fn lemma_blend_same(o: int, m: int)
    requires
        0 <= m <= 256,
    ensures
        blend_spec(o, o, m) == o,
{
    assert((256 - m) * o + m * o == 256 * o) by (nonlinear_arith);
    assert((256 * o + 128) / 256 == o) by (nonlinear_arith);
}

/// Blend two equally sized sample buffers: `mix` runs from 0 (first buffer
/// only) to 256 (second buffer only).
pub fn aggregate(original: &Vec<i64>, reconstructed: &Vec<i64>, mix: u32) -> (res: Result<
    Vec<i64>,
    Bm3dError,
>)
    requires
        forall|i: int| 0 <= i < original@.len() ==> 0 <= #[trigger] original@[i] <= PIX_MAX_Q8,
        forall|i: int|
            0 <= i < reconstructed@.len() ==> 0 <= #[trigger] reconstructed@[i] <= PIX_MAX_Q8,
    ensures
        mix > 256 <==> res == Err::<Vec<i64>, Bm3dError>(Bm3dError::InvalidMixFactor(mix)),
        (mix <= 256 && original@.len() != reconstructed@.len()) <==> res == Err::<
            Vec<i64>,
            Bm3dError,
        >(
            Bm3dError::DimensionMismatch {
                a: original.len(),
                b: reconstructed.len(),
            },
        ),
        (mix <= 256 && original@.len() == reconstructed@.len()) <==> res is Ok,
        res matches Ok(v) ==> {
            &&& v@.len() == original@.len()
            &&& forall|i: int|
                0 <= i < v@.len() ==> #[trigger] v@[i] as int == blend_spec(
                    original@[i] as int,
                    reconstructed@[i] as int,
                    mix as int,
                )
            &&& forall|i: int| 0 <= i < v@.len() ==> 0 <= #[trigger] v@[i] <= PIX_MAX_Q8
            &&& (mix == 0 ==> v@ == original@)
            &&& (mix == 256 ==> v@ == reconstructed@)
        },
{
    if mix > 256 {
        return Err(Bm3dError::InvalidMixFactor(mix));
    }
    if original.len() != reconstructed.len() {
        return Err(Bm3dError::DimensionMismatch { a: original.len(), b: reconstructed.len() });
    }
    let n = original.len();
    let mut out: Vec<i64> = Vec::new();
    let m = mix as i64;
    let mut i: usize = 0;
    while i < n
        invariant
            n == original@.len(),
            n == reconstructed@.len(),
            0 <= m <= 256,
            m == mix as int,
            forall|k: int| 0 <= k < n ==> 0 <= #[trigger] original@[k] <= PIX_MAX_Q8,
            forall|k: int| 0 <= k < n ==> 0 <= #[trigger] reconstructed@[k] <= PIX_MAX_Q8,
            i <= n,
            out@.len() == i,
            forall|k: int|
                0 <= k < i ==> #[trigger] out@[k] as int == blend_spec(
                    original@[k] as int,
                    reconstructed@[k] as int,
                    m as int,
                ),
            forall|k: int| 0 <= k < i ==> 0 <= #[trigger] out@[k] <= PIX_MAX_Q8,
        decreases n - i,
    {
        let o = original[i];
        let r = reconstructed[i];
        proof {
            lemma_mul_bound((256 - m) as int, o as int, 256, PIX_MAX_Q8 as int);
            lemma_mul_bound(m as int, r as int, 256, PIX_MAX_Q8 as int);
        }
        let num = (256 - m) * o + m * r + 128;
        let q = num / 256;
        proof {
            let oi = o as int;
            let ri = r as int;
            let mi = m as int;
            assert(0 <= (256 - mi) * oi + mi * ri + 128) by (nonlinear_arith)
                requires
                    0 <= oi,
                    0 <= ri,
                    0 <= mi <= 256,
            ;
            assert((256 - mi) * oi + mi * ri + 128 <= 256 * PIX_MAX_Q8 + 128) by (nonlinear_arith)
                requires
                    0 <= oi <= PIX_MAX_Q8,
                    0 <= ri <= PIX_MAX_Q8,
                    0 <= mi <= 256,
            ;
            crate::fixed::lemma_div_bound(num as int, 256, 256 * PIX_MAX_Q8 as int + 128);
            assert(q as int * 256 <= num as int) by {
                assert(num as int == 256 * (num as int / 256) + (num as int) % 256);
            }
            assert(q as int <= PIX_MAX_Q8) by (nonlinear_arith)
                requires
                    q as int * 256 <= 256 * PIX_MAX_Q8 as int + 128,
            ;
        }
        out.push(q);
        i = i + 1;
    }
    proof {
        if mix == 0 {
            assert forall|k: int| 0 <= k < n implies out@[k] == original@[k] by {
                lemma_blend_ends(original@[k] as int, reconstructed@[k] as int, 0);
            }
            assert(out@ =~= original@);
        }
        if mix == 256 {
            assert forall|k: int| 0 <= k < n implies out@[k] == reconstructed@[k] by {
                lemma_blend_ends(original@[k] as int, reconstructed@[k] as int, 256);
            }
            assert(out@ =~= reconstructed@);
        }
    }
    Ok(out)
}

/// Linear index `i` of a row-major buffer of the given width falls inside
/// the block anchored at `(ax, ay)`.
pub open spec fn in_rect(i: int, ax: int, ay: int, b: int, width: int) -> bool {
    ax <= i % width < ax + b && ay <= i / width < ay + b
}

/// The numerator buffer after folding in one weighted patch.
#[verifier::opaque]
pub open spec fn add_patch_num_spec(
    num: Seq<i128>,
    patch: Seq<Seq<i64>>,
    ax: int,
    ay: int,
    b: int,
    w: int,
    width: int,
) -> Seq<i128> {
    Seq::new(
        num.len(),
        |i: int|
            if in_rect(i, ax, ay, b, width) {
                (num[i] + w * patch[i / width - ay][i % width - ax]) as i128
            } else {
                num[i]
            },
    )
}

/// The denominator buffer after folding in one weighted patch.
#[verifier::opaque]
pub open spec fn add_patch_den_spec(den: Seq<i128>, ax: int, ay: int, b: int, w: int, width: int) -> Seq<
    i128,
> {
    Seq::new(
        den.len(),
        |i: int|
            if in_rect(i, ax, ay, b, width) {
                (den[i] + w) as i128
            } else {
                den[i]
            },
    )
}

/// Row, column and identity facts of a row-major linear index.
pub proof fn lemma_linear_index(i: int, w: int, h: int)
    requires
        0 <= i < w * h,
        1 <= w,
    ensures
        0 <= i % w < w,
        0 <= i / w < h,
        i == (i / w) * w + i % w,
{
    assert(0 <= i % w < w && 0 <= i / w && i == w * (i / w) + i % w) by (nonlinear_arith)
        requires
            1 <= w,
            0 <= i,
    ;
    assert(i / w < h) by (nonlinear_arith)
        requires
            1 <= w,
            0 <= i < w * h,
    ;
    assert((i / w) * w == w * (i / w)) by (nonlinear_arith);
}

/// The pair of overlap-add buffers of one pass: a numerator holding the sum
/// of weighted samples and a denominator holding the sum of weights, plus
/// the count of patches folded in so far.
#[derive(Debug)]
pub struct Accumulator {
    /// Sum of weighted samples, per pixel.
    pub num: Vec<i128>,
    /// Sum of weights, per pixel.
    pub den: Vec<i128>,
    /// Width in pixels.
    pub width: usize,
    /// Height in pixels.
    pub height: usize,
    /// Number of patches folded in so far.
    pub covers: u64,
}

impl Accumulator {
    /// Shape and range invariant.
    pub open spec fn wf(self) -> bool {
        &&& self.width <= MAX_SIDE
        &&& self.height <= MAX_SIDE
        &&& self.num@.len() == self.width as int * self.height as int
        &&& self.den@.len() == self.num@.len()
        &&& self.covers <= COVERS_MAX
        &&& forall|i: int|
            0 <= i < self.den@.len() ==> 0 <= #[trigger] self.den@[i] <= self.covers as int * (
            W_CAP as int)
        &&& forall|i: int|
            0 <= i < self.num@.len() ==> -(self.den@[i] * (VAL_LIMIT as int)) <= #[trigger] self.num@[i]
                <= self.den@[i] * (VAL_LIMIT as int)
    }

    /// The denominator at pixel `(x, y)`.
    pub open spec fn den_at(self, x: int, y: int) -> int {
        self.den@[y * self.width as int + x] as int
    }

    /// The numerator at pixel `(x, y)`.
    pub open spec fn num_at(self, x: int, y: int) -> int {
        self.num@[y * self.width as int + x] as int
    }

    /// A fresh, all-zero accumulator.
    pub fn new(width: usize, height: usize) -> (r: Accumulator)
        requires
            width <= MAX_SIDE,
            height <= MAX_SIDE,
        ensures
            r.wf(),
            r.width == width,
            r.height == height,
            r.covers == 0,
            forall|i: int| 0 <= i < r.den@.len() ==> #[trigger] r.den@[i] == 0,
            forall|i: int| 0 <= i < r.num@.len() ==> #[trigger] r.num@[i] == 0,
    {
        proof {
            crate::fixed::lemma_mul_le(width as int, height as int, 0x2000, 0x2000);
        }
        let total = width * height;
        let mut num: Vec<i128> = Vec::new();
        let mut den: Vec<i128> = Vec::new();
        let mut i: usize = 0;
        while i < total
            invariant
                i <= total,
                num@.len() == i,
                den@.len() == i,
                forall|k: int| 0 <= k < i ==> #[trigger] num@[k] == 0,
                forall|k: int| 0 <= k < i ==> #[trigger] den@[k] == 0,
            decreases total - i,
        {
            num.push(0);
            den.push(0);
            i = i + 1;
        }
        Accumulator { num, den, width, height, covers: 0 }
    }

    /// Add `w` to the denominator and `w` times `pv` to the numerator of
    /// one pixel.
    fn bump(&mut self, px: usize, py: usize, w: u64, pv: i64)
        requires
            old(self).num@.len() == old(self).width as int * old(self).height as int,
            old(self).den@.len() == old(self).num@.len(),
            px < old(self).width,
            py < old(self).height,
            1 <= w <= W_CAP,
            -VAL_LIMIT <= pv <= VAL_LIMIT,
            0 <= old(self).den_at(px as int, py as int) <= 0x1000_0000_0000_0000,
            -(old(self).den_at(px as int, py as int) * (VAL_LIMIT as int)) <= old(self).num_at(
                px as int,
                py as int,
            ) <= old(self).den_at(px as int, py as int) * (VAL_LIMIT as int),
        ensures
            final(self).width == old(self).width,
            final(self).height == old(self).height,
            final(self).covers == old(self).covers,
            final(self).num@.len() == old(self).num@.len(),
            final(self).den@.len() == old(self).den@.len(),
            final(self).den@ == old(self).den@.update(
                py as int * old(self).width as int + px as int,
                (old(self).den_at(px as int, py as int) + w as int) as i128,
            ),
            final(self).num@ == old(self).num@.update(
                py as int * old(self).width as int + px as int,
                (old(self).num_at(px as int, py as int) + w as int * pv as int) as i128,
            ),
    {
        let width = self.width;
        let height = self.height;
        proof {
            lemma_agg_index(px as int, py as int, width as int, height as int);
            lemma_mul_bound(w as int, pv as int, W_CAP as int, VAL_LIMIT as int);
            lemma_mul_bound(
                old(self).den_at(px as int, py as int),
                VAL_LIMIT as int,
                0x1000_0000_0000_0000,
                VAL_LIMIT as int,
            );
        }
        let total = self.num.len();
        let idx = py * width + px;
        let dv = self.den[idx];
        let nv = self.num[idx];
        self.den.set(idx, dv + (w as i128));
        self.num.set(idx, nv + (w as i128) * (pv as i128));
    }

    /// Pixel-level reading of one [`Accumulator::bump`]: the bumped pixel
    /// moves by the weighted sample, every other pixel is untouched.
    proof fn lemma_bump_frame(pre: Accumulator, post: Accumulator, px: int, py: int, d: i128, n: i128)
        requires
            pre.num@.len() == pre.width as int * pre.height as int,
            pre.den@.len() == pre.num@.len(),
            0 <= px < pre.width,
            0 <= py < pre.height,
            post.width == pre.width,
            post.height == pre.height,
            post.den@ == pre.den@.update(py * pre.width as int + px, d),
            post.num@ == pre.num@.update(py * pre.width as int + px, n),
        ensures
            post.den_at(px, py) == d as int,
            post.num_at(px, py) == n as int,
            forall|qx: int, qy: int|
                0 <= qx < pre.width && 0 <= qy < pre.height && !(qx == px && qy == py)
                    ==> #[trigger] post.den_at(qx, qy) == pre.den_at(qx, qy) && post.num_at(qx, qy)
                    == pre.num_at(qx, qy),
    {
        lemma_agg_index(px, py, pre.width as int, pre.height as int);
        assert forall|qx: int, qy: int|
            0 <= qx < pre.width && 0 <= qy < pre.height && !(qx == px && qy == py)
                implies #[trigger] post.den_at(qx, qy) == pre.den_at(qx, qy) && post.num_at(qx, qy)
            == pre.num_at(qx, qy) by {
            lemma_agg_index(qx, qy, pre.width as int, pre.height as int);
            lemma_distinct_index(qx, qy, px, py, pre.width as int);
        }
    }

    /// Fold one reconstructed patch into the buffers with weight `w`: each
    /// covered pixel gains `w` in the denominator and `w` times the patch
    /// sample in the numerator.
    pub fn add_patch(
        &mut self,
        patch: &Vec<Vec<i64>>,
        anchor: (usize, usize),
        b: usize,
        w: u64,
    )
        requires
            old(self).wf(),
            1 <= w <= W_CAP,
            old(self).covers < COVERS_MAX,
            patch@.len() == b,
            forall|r: int| 0 <= r < b ==> (#[trigger] patch@[r])@.len() == b,
            forall|r: int|
                0 <= r < b ==> crate::fixed::all_bounded((#[trigger] patch@[r])@, VAL_LIMIT as int),
            anchor.0 + b <= old(self).width,
            anchor.1 + b <= old(self).height,
        ensures
            final(self).wf(),
            final(self).width == old(self).width,
            final(self).height == old(self).height,
            final(self).covers == old(self).covers + 1,
            forall|px: int, py: int|
                anchor.0 <= px < anchor.0 + b && anchor.1 <= py < anchor.1 + b ==> final(self).den_at(px, py) == old(self).den_at(px, py) + w as int && final(self).num_at(
                    px,
                    py,
                ) == old(self).num_at(px, py) + w as int * patch@[py - anchor.1]@[px
                    - anchor.0] as int,
            forall|px: int, py: int|
                0 <= px < old(self).width && 0 <= py < old(self).height && !(anchor.0 <= px
                    < anchor.0 + b && anchor.1 <= py < anchor.1 + b) ==> final(self).den_at(px, py)
                    == old(self).den_at(px, py) && final(self).num_at(px, py) == old(self).num_at(
                    px,
                    py,
                ),
            forall|px: int, py: int|
                0 <= px < old(self).width && 0 <= py < old(self).height ==> final(self).den_at(
                    px,
                    py,
                ) >= old(self).den_at(px, py),
            final(self).num@ == add_patch_num_spec(
                old(self).num@,
                patch.deep_view(),
                anchor.0 as int,
                anchor.1 as int,
                b as int,
                w as int,
                old(self).width as int,
            ),
            final(self).den@ == add_patch_den_spec(
                old(self).den@,
                anchor.0 as int,
                anchor.1 as int,
                b as int,
                w as int,
                old(self).width as int,
            ),
    {
        let (ax, ay) = anchor;
        let width = self.width;
        let height = self.height;
        let ghost orig = *self;
        proof {
            assert forall|qx: int, qy: int|
                0 <= qx < width && 0 <= qy < height implies 0 <= #[trigger] orig.den_at(qx, qy)
                <= orig.covers as int * (W_CAP as int) && -(orig.den_at(qx, qy) * (
            VAL_LIMIT as int)) <= orig.num_at(qx, qy) <= orig.den_at(qx, qy) * (
            VAL_LIMIT as int) by {
                lemma_agg_index(qx, qy, width as int, height as int);
            }
            assert(orig.covers as int * (W_CAP as int) + (W_CAP as int) == (orig.covers as int + 1)
                * (W_CAP as int)) by (nonlinear_arith);
            assert((orig.covers as int + 1) * (W_CAP as int) <= 0x1000_0000_0000_0000)
                by (nonlinear_arith)
                requires
                    orig.covers as int + 1 <= COVERS_MAX as int,
            ;
        }
        let mut r: usize = 0;
        while r < b
            invariant
                self.width == orig.width,
                self.height == orig.height,
                self.covers == orig.covers,
                self.num@.len() == orig.num@.len(),
                self.den@.len() == orig.den@.len(),
                orig.num@.len() == orig.width as int * orig.height as int,
                orig.den@.len() == orig.num@.len(),
                width == orig.width,
                height == orig.height,
                1 <= w <= W_CAP,
                orig.covers < COVERS_MAX,
                patch@.len() == b,
                forall|rr: int| 0 <= rr < b ==> (#[trigger] patch@[rr])@.len() == b,
                forall|rr: int|
                    0 <= rr < b ==> crate::fixed::all_bounded(
                        (#[trigger] patch@[rr])@,
                        VAL_LIMIT as int,
                    ),
                ax + b <= orig.width,
                ay + b <= orig.height,
                forall|qx: int, qy: int|
                    0 <= qx < orig.width && 0 <= qy < orig.height ==> 0 <= #[trigger] orig.den_at(
                        qx,
                        qy,
                    ) <= (orig.covers as int) * (W_CAP as int) && -(orig.den_at(qx, qy) * (
                    VAL_LIMIT as int)) <= orig.num_at(qx, qy) <= orig.den_at(qx, qy) * (
                    VAL_LIMIT as int),
                (orig.covers as int + 1) * (W_CAP as int) <= 0x1000_0000_0000_0000,
                orig.covers as int * (W_CAP as int) + (W_CAP as int) == (orig.covers as int + 1) * (
                W_CAP as int),
                r <= b,
                forall|px: int, py: int|
                    ax <= px < ax + b && ay <= py < ay + r ==> self.den_at(px, py) == orig.den_at(
                        px,
                        py,
                    ) + w as int && self.num_at(px, py) == orig.num_at(px, py) + w as int
                        * patch@[py - ay]@[px - ax] as int,
                forall|px: int, py: int|
                    0 <= px < orig.width && 0 <= py < orig.height && !(ax <= px < ax + b && ay <= py
                        < ay + r) ==> self.den_at(px, py) == orig.den_at(px, py) && self.num_at(
                        px,
                        py,
                    ) == orig.num_at(px, py),
            decreases b - r,
        {
            let mut c: usize = 0;
            while c < b
                invariant
                    self.width == orig.width,
                    self.height == orig.height,
                    self.covers == orig.covers,
                    self.num@.len() == orig.num@.len(),
                    self.den@.len() == orig.den@.len(),
                    orig.num@.len() == orig.width as int * orig.height as int,
                    orig.den@.len() == orig.num@.len(),
                    width == orig.width,
                    height == orig.height,
                    1 <= w <= W_CAP,
                    orig.covers < COVERS_MAX,
                    patch@.len() == b,
                    forall|rr: int| 0 <= rr < b ==> (#[trigger] patch@[rr])@.len() == b,
                    forall|rr: int|
                        0 <= rr < b ==> crate::fixed::all_bounded(
                            (#[trigger] patch@[rr])@,
                            VAL_LIMIT as int,
                        ),
                    ax + b <= orig.width,
                    ay + b <= orig.height,
                    forall|qx: int, qy: int|
                        0 <= qx < orig.width && 0 <= qy < orig.height ==> 0 <= #[trigger] orig.den_at(
                            qx,
                            qy,
                        ) <= (orig.covers as int) * (W_CAP as int) && -(orig.den_at(qx, qy) * (
                        VAL_LIMIT as int)) <= orig.num_at(qx, qy) <= orig.den_at(qx, qy) * (
                        VAL_LIMIT as int),
                    (orig.covers as int + 1) * (W_CAP as int) <= 0x1000_0000_0000_0000,
                    orig.covers as int * (W_CAP as int) + (W_CAP as int) == (orig.covers as int + 1)
                        * (W_CAP as int),
                    r < b,
                    c <= b,
                    forall|px: int, py: int|
                        ax <= px < ax + b && ay <= py < ay + r ==> self.den_at(px, py)
                            == orig.den_at(px, py) + w as int && self.num_at(px, py) == orig.num_at(
                            px,
                            py,
                        ) + w as int * patch@[py - ay]@[px - ax] as int,
                    forall|px: int|
                        ax <= px < ax + c ==> #[trigger] self.den_at(px, ay + r) == orig.den_at(
                            px,
                            ay + r,
                        ) + w as int && self.num_at(px, ay + r) == orig.num_at(px, ay + r)
                            + w as int * patch@[r as int]@[px - ax] as int,
                    forall|px: int, py: int|
                        0 <= px < orig.width && 0 <= py < orig.height && !(ax <= px < ax + b && ay
                            <= py < ay + r) && !(py == ay + r && ax <= px < ax + c)
                            ==> self.den_at(px, py) == orig.den_at(px, py) && self.num_at(px, py)
                            == orig.num_at(px, py),
                decreases b - c,
            {
                let px = ax + c;
                let py = ay + r;
                let pv = patch[r][c];
                let ghost before = *self;
                proof {
                    assert(self.den_at(px as int, py as int) == orig.den_at(px as int, py as int));
                    assert(self.num_at(px as int, py as int) == orig.num_at(px as int, py as int));
                    assert(0 <= orig.den_at(px as int, py as int) <= orig.covers as int * (
                    W_CAP as int));
                    assert(orig.covers as int * (W_CAP as int) <= 0x1000_0000_0000_0000);
                    lemma_mul_bound(w as int, pv as int, W_CAP as int, VAL_LIMIT as int);
                    lemma_mul_bound(
                        orig.den_at(px as int, py as int),
                        VAL_LIMIT as int,
                        0x1000_0000_0000_0000,
                        VAL_LIMIT as int,
                    );
                }
                self.bump(px, py, w, pv);
                proof {
                    assert(self.num@.len() == before.num@.len());
                    assert(self.den@.len() == before.den@.len());
                    Accumulator::lemma_bump_frame(
                        before,
                        *self,
                        px as int,
                        py as int,
                        (before.den_at(px as int, py as int) + w as int) as i128,
                        (before.num_at(px as int, py as int) + w as int * pv as int) as i128,
                    );
                    assert(self.den_at(px as int, py as int) == before.den_at(px as int, py as int)
                        + w as int);
                    assert(self.num_at(px as int, py as int) == before.num_at(px as int, py as int)
                        + w as int * pv as int);
                    assert forall|qx: int, qy: int|
                        ax <= qx < ax + b && ay <= qy < ay + r implies self.den_at(qx, qy)
                        == orig.den_at(qx, qy) + w as int && self.num_at(qx, qy) == orig.num_at(
                        qx,
                        qy,
                    ) + w as int * patch@[qy - ay]@[qx - ax] as int by {
                        assert(before.den_at(qx, qy) == orig.den_at(qx, qy) + w as int);
                        assert(self.den_at(qx, qy) == before.den_at(qx, qy));
                        assert(self.num_at(qx, qy) == before.num_at(qx, qy));
                    }
                    assert forall|qx: int|
                        ax <= qx < ax + c + 1 implies #[trigger] self.den_at(qx, ay + r)
                        == orig.den_at(qx, ay + r) + w as int && self.num_at(qx, ay + r)
                        == orig.num_at(qx, ay + r) + w as int * patch@[r as int]@[qx
                        - ax] as int by {
                        if qx == px as int {
                            assert(self.den_at(px as int, py as int) == before.den_at(
                                px as int,
                                py as int,
                            ) + w as int);
                        } else {
                            assert(before.den_at(qx, ay + r) == orig.den_at(qx, ay + r)
                                + w as int);
                            assert(self.den_at(qx, ay + r) == before.den_at(qx, ay + r));
                            assert(self.num_at(qx, ay + r) == before.num_at(qx, ay + r));
                        }
                    }
                }
                c = c + 1;
            }
            proof {
                assert forall|px: int, py: int|
                    ax <= px < ax + b && ay <= py < ay + r + 1 implies self.den_at(px, py)
                    == orig.den_at(px, py) + w as int && self.num_at(px, py) == orig.num_at(px, py)
                    + w as int * patch@[py - ay]@[px - ax] as int by {
                    if py == ay + r {
                        assert(self.den_at(px, ay + r as int) == orig.den_at(px, ay + r as int)
                            + w as int);
                    }
                }
            }
            r = r + 1;
        }
        proof {
            assert forall|px: int, py: int|
                0 <= px < orig.width && 0 <= py < orig.height implies self.den_at(px, py)
                >= orig.den_at(px, py) by {
                if ax <= px < ax + b && ay <= py < ay + b {
                    assert(self.den_at(px, py) == orig.den_at(px, py) + w as int);
                } else {
                    assert(self.den_at(px, py) == orig.den_at(px, py));
                }
            }
            reveal(add_patch_num_spec);
            reveal(add_patch_den_spec);
            let wi2 = old(self).width as int;
            let hi2 = old(self).height as int;
            assert(self.num@.len() == wi2 * hi2);
            assert forall|i: int|
                0 <= i < self.num@.len() implies self.num@[i] == add_patch_num_spec(
                old(self).num@,
                patch.deep_view(),
                ax as int,
                ay as int,
                b as int,
                w as int,
                wi2,
            )[i] && self.den@[i] == add_patch_den_spec(
                old(self).den@,
                ax as int,
                ay as int,
                b as int,
                w as int,
                wi2,
            )[i] by {
                lemma_linear_index(i, wi2, hi2);
                let px = i % wi2;
                let py = i / wi2;
                assert(self.den_at(px, py) == self.den@[i]);
                assert(self.num_at(px, py) == self.num@[i]);
                assert(old(self).den_at(px, py) == old(self).den@[i]);
                assert(old(self).num_at(px, py) == old(self).num@[i]);
                if in_rect(i, ax as int, ay as int, b as int, wi2) {
                    assert(self.den_at(px, py) == old(self).den_at(px, py) + w as int);
                    assert(self.num_at(px, py) == old(self).num_at(px, py) + w as int * patch@[py
                        - ay]@[px - ax] as int);
                    assert(patch.deep_view()[py - ay as int] =~= patch@[py - ay as int]@);
                } else {
                    assert(self.den_at(px, py) == old(self).den_at(px, py));
                    assert(self.num_at(px, py) == old(self).num_at(px, py));
                }
            }
            assert(self.num@ =~= add_patch_num_spec(
                old(self).num@,
                patch.deep_view(),
                ax as int,
                ay as int,
                b as int,
                w as int,
                wi2,
            ));
            assert(self.den@ =~= add_patch_den_spec(
                old(self).den@,
                ax as int,
                ay as int,
                b as int,
                w as int,
                wi2,
            ));
        }
        self.covers = self.covers + 1;
        proof {
            assert forall|i: int|
                0 <= i < self.den@.len() implies 0 <= #[trigger] self.den@[i]
                <= self.covers as int * (W_CAP as int) && -(self.den@[i] * (VAL_LIMIT as int)) <= (
            #[trigger] self.num@[i]) <= self.den@[i] * (VAL_LIMIT as int) by {
                lemma_linear_index(i, orig.width as int, orig.height as int);
                let px = i % orig.width as int;
                let py = i / orig.width as int;
                assert(self.den_at(px, py) == self.den@[i]);
                assert(self.num_at(px, py) == self.num@[i]);
                if ax <= px < ax + b && ay <= py < ay + b {
                    assert(self.den_at(px, py) == orig.den_at(px, py) + w as int);
                    assert(self.num_at(px, py) == orig.num_at(px, py) + w as int * patch@[py
                        - ay]@[px - ax] as int);
                    lemma_mul_bound(w as int, patch@[py - ay]@[px - ax] as int, W_CAP as int, VAL_LIMIT as int);
                    assert((orig.den_at(px, py) + w as int) * (VAL_LIMIT as int) == orig.den_at(
                        px,
                        py,
                    ) * (VAL_LIMIT as int) + w as int * (VAL_LIMIT as int)) by (nonlinear_arith);
                    assert(w as int * patch@[py - ay]@[px - ax] as int <= w as int * (
                    VAL_LIMIT as int)) by (nonlinear_arith)
                        requires
                            0 <= w as int,
                            patch@[py - ay]@[px - ax] as int <= VAL_LIMIT as int,
                    ;
                    assert(-(w as int * (VAL_LIMIT as int)) <= w as int * patch@[py - ay]@[px
                        - ax] as int) by (nonlinear_arith)
                        requires
                            0 <= w as int,
                            -(VAL_LIMIT as int) <= patch@[py - ay]@[px - ax] as int,
                    ;
                } else {
                    assert(self.den_at(px, py) == orig.den_at(px, py));
                    assert(self.num_at(px, py) == orig.num_at(px, py));
                }
            }
        }
    }

    /// One output sample: the rounded quotient where the denominator is
    /// positive, the fallback sample otherwise, clamped to the sample range.
    pub open spec fn agg_pixel_spec(n: int, d: int, fb: int) -> int {
        if d <= 0 {
            fb
        } else if n <= 0 {
            0
        } else {
            clamp_spec((n + d / 2) / d, 0, PIX_MAX_Q8 as int)
        }
    }

    /// Divide the two buffers into an output plane, falling back to
    /// `fallback` wherever no patch contributed.
    pub fn finalize(&self, fallback: &Plane) -> (r: Plane)
        requires
            self.wf(),
            fallback.wf(),
            fallback.width == self.width,
            fallback.height == self.height,
        ensures
            r.wf(),
            r.width == self.width,
            r.height == self.height,
            forall|i: int|
                0 <= i < r.data@.len() ==> #[trigger] r.data@[i] as int == Accumulator::agg_pixel_spec(
                    self.num@[i] as int,
                    self.den@[i] as int,
                    fallback.data@[i] as int,
                ),
    {
        let total = self.num.len();
        let mut data: Vec<i64> = Vec::new();
        let mut i: usize = 0;
        while i < total
            invariant
                self.wf(),
                fallback.wf(),
                fallback.width == self.width,
                fallback.height == self.height,
                total == self.num@.len(),
                fallback.data@.len() == total,
                i <= total,
                data@.len() == i,
                forall|k: int|
                    0 <= k < i ==> #[trigger] data@[k] as int == Accumulator::agg_pixel_spec(
                        self.num@[k] as int,
                        self.den@[k] as int,
                        fallback.data@[k] as int,
                    ),
                forall|k: int| 0 <= k < i ==> 0 <= #[trigger] data@[k] <= PIX_MAX_Q8,
            decreases total - i,
        {
            let d = self.den[i];
            let n = self.num[i];
            let v: i64 = if d <= 0 {
                fallback.data[i]
            } else if n <= 0 {
                0
            } else {
                let q = ((n as u128) + (d as u128) / 2) / (d as u128);
                proof {
                    assert(n as int + d as int / 2 == (n as u128 + (d as u128) / 2) as int);
                }
                if q > PIX_MAX_Q8 as u128 {
                    PIX_MAX_Q8
                } else {
                    q as i64
                }
            };
            data.push(v);
            i = i + 1;
        }
        Plane { data, width: self.width, height: self.height }
    }
}

/// A pixel inside the accumulator's bounds has an in-range linear index.
pub proof fn lemma_agg_index(x: int, y: int, w: int, h: int)
    requires
        0 <= x < w,
        0 <= y < h,
    ensures
        0 <= y * w + x < w * h,
{
    assert(0 <= y * w + x < w * h) by (nonlinear_arith)
        requires
            0 <= x < w,
            0 <= y < h,
    ;
}

/// When every contribution to a pixel agrees on the same sample value, the
/// aggregated output is exactly that value.
pub proof fn lemma_agg_of_uniform(d: int, p: int, fb: int)
    requires
        d >= 1,
        0 <= p <= PIX_MAX_Q8,
    ensures
        Accumulator::agg_pixel_spec(d * p, d, fb) == p,
{
    if p == 0 {
        assert(d * 0 == 0) by (nonlinear_arith);
    } else {
        assert(d * p > 0) by (nonlinear_arith)
            requires
                d >= 1,
                p >= 1,
        ;
        assert((d * p + d / 2) / d == p) by (nonlinear_arith)
            requires
                d >= 1,
                p >= 0,
        ;
    }
}

/// Numerator buffer after folding the first `k` layers of a filtered group
/// at its member anchors, all with one weight.
pub open spec fn add_group_num_spec(
    num: Seq<i128>,
    g: Seq<Seq<Seq<i64>>>,
    a: Seq<(usize, usize)>,
    b: int,
    w: int,
    width: int,
    k: int,
) -> Seq<i128>
    decreases k,
{
    if k <= 0 {
        num
    } else {
        add_patch_num_spec(
            add_group_num_spec(num, g, a, b, w, width, k - 1),
            g[k - 1],
            a[k - 1].0 as int,
            a[k - 1].1 as int,
            b,
            w,
            width,
        )
    }
}

/// Denominator buffer after folding the first `k` layers of a group.
pub open spec fn add_group_den_spec(
    den: Seq<i128>,
    a: Seq<(usize, usize)>,
    b: int,
    w: int,
    width: int,
    k: int,
) -> Seq<i128>
    decreases k,
{
    if k <= 0 {
        den
    } else {
        add_patch_den_spec(
            add_group_den_spec(den, a, b, w, width, k - 1),
            a[k - 1].0 as int,
            a[k - 1].1 as int,
            b,
            w,
            width,
        )
    }
}

} // verus!