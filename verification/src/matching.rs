//! Block matching: search window, patch extraction, and the similarity
//! search that forms groups.

use vstd::prelude::*;

use crate::error::ImageProcessingError;
use crate::geometry::Margin;
use crate::image::{Plane, MAX_SIDE, PIX_MAX_Q8};
use vstd::multiset::Multiset;

verus! {

/// A square patch of samples, anchored at its top-left corner.
#[derive(Debug)]
pub struct Patch {
    /// Anchor coordinate `(x, y)`.
    pub top_left: (usize, usize),
    /// Flattened samples, row-major.
    pub data: Vec<i64>,
}

/// `data` holds exactly the `b` by `b` window of `p` anchored at `(x, y)`.
pub open spec fn is_patch_of(data: Seq<i64>, p: Plane, x: int, y: int, b: int) -> bool {
    &&& data.len() == b * b
    &&& forall|r: int, c: int|
        0 <= r < b && 0 <= c < b ==> #[trigger] data[r * b + c] as int == p.at(x + c, y + r)
}

/// The search window around a reference anchor, before clamping: the four
/// values are left, top, right, bottom, with right and bottom exclusive.
/// Clamping shifts the window to keep it inside the image; a window larger
/// than the image degenerates to the whole image.
pub open spec fn window_spec(w: int, h: int, rx: int, ry: int, bs: int, ws: int) -> (
    int,
    int,
    int,
    int,
) {
    let half = (ws - bs) / 2;
    let l0 = if rx - half < 0 {
        0
    } else {
        rx - half
    };
    let t0 = if ry - half < 0 {
        0
    } else {
        ry - half
    };
    let l1 = if l0 + ws > w {
        if w - ws < 0 {
            0
        } else {
            w - ws
        }
    } else {
        l0
    };
    let t1 = if t0 + ws > h {
        if h - ws < 0 {
            0
        } else {
            h - ws
        }
    } else {
        t0
    };
    let r1 = if l0 + ws > w {
        w
    } else {
        l0 + ws
    };
    let b1 = if t0 + ws > h {
        h
    } else {
        t0 + ws
    };
    (l1, t1, r1, b1)
}

/// Find the search window whose center is the reference anchor.  Near a
/// border the window is shifted rather than shrunk, so its center is not
/// always the reference anchor.
pub fn search_window(
    plane: &Plane,
    ref_point: (usize, usize),
    block_size: usize,
    window_size: usize,
) -> (res: Result<Margin, ImageProcessingError>)
    requires
        plane.wf(),
        ref_point.0 < plane.width,
        ref_point.1 < plane.height,
        window_size <= MAX_SIDE,
    ensures
        block_size >= window_size <==> res is Err,
        res matches Ok(m) ==> {
            let win = window_spec(
                plane.width as int,
                plane.height as int,
                ref_point.0 as int,
                ref_point.1 as int,
                block_size as int,
                window_size as int,
            );
            &&& m.top_left.0 as int == win.0
            &&& m.top_left.1 as int == win.1
            &&& m.bottom_right.0 as int == win.2
            &&& m.bottom_right.1 as int == win.3
        },
{
    if block_size >= window_size {
        return Err(
            ImageProcessingError::InvalidParameter(
                "Invalid Image size, block size must be smaller than window size",
            ),
        );
    }

    let w = plane.width as i64;
    let h = plane.height as i64;
    let rx = ref_point.0 as i64;
    let ry = ref_point.1 as i64;
    let ws = window_size as i64;
    let bs = block_size as i64;

    let half = (ws - bs) / 2;
    let l0 = if rx - half < 0 {
        0
    } else {
        rx - half
    };
    let t0 = if ry - half < 0 {
        0
    } else {
        ry - half
    };
    let l1 = if l0 + ws > w {
        if w - ws < 0 {
            0
        } else {
            w - ws
        }
    } else {
        l0
    };
    let t1 = if t0 + ws > h {
        if h - ws < 0 {
            0
        } else {
            h - ws
        }
    } else {
        t0
    };
    let r1 = if l0 + ws > w {
        w
    } else {
        l0 + ws
    };
    let b1 = if t0 + ws > h {
        h
    } else {
        t0 + ws
    };
    Ok(Margin::new((l1 as i32, t1 as i32), (r1 as i32, b1 as i32)))
}

/// Extract the `block_size` by `block_size` patch anchored at `top_left`.
/// Returns `None` when the patch would leave the image.
pub fn extract_patch(plane: &Plane, top_left: (usize, usize), block_size: usize) -> (res: Option<
    Patch,
>)
    requires
        plane.wf(),
        crate::dct::dct_size_ok(block_size as int),
    ensures
        (res is Some) <==> (top_left.0 + block_size <= plane.width && top_left.1 + block_size
            <= plane.height),
        res matches Some(p) ==> {
            &&& p.top_left == top_left
            &&& is_patch_of(
                p.data@,
                *plane,
                top_left.0 as int,
                top_left.1 as int,
                block_size as int,
            )
            &&& crate::fixed::all_bounded(p.data@, crate::fixed::VAL_LIMIT as int)
        },
{
    let (x, y) = top_left;
    let b = block_size;
    if x > plane.width || b > plane.width - x || y > plane.height || b > plane.height - y {
        return None;
    }
    let mut data: Vec<i64> = Vec::new();
    let mut r: usize = 0;
    while r < b
        invariant
            plane.wf(),
            crate::dct::dct_size_ok(b as int),
            x + b <= plane.width,
            y + b <= plane.height,
            r <= b,
            data@.len() == r * b,
            forall|rr: int, cc: int|
                0 <= rr < r && 0 <= cc < b ==> #[trigger] data@[rr * b + cc] as int == plane.at(
                    x + cc,
                    y + rr,
                ),
            crate::fixed::all_bounded(data@, crate::fixed::VAL_LIMIT as int),
        decreases b - r,
    {
        let mut c: usize = 0;
        while c < b
            invariant
                plane.wf(),
                crate::dct::dct_size_ok(b as int),
                x + b <= plane.width,
                y + b <= plane.height,
                r < b,
                c <= b,
                data@.len() == r * b + c,
                forall|rr: int, cc: int|
                    0 <= rr < r && 0 <= cc < b ==> #[trigger] data@[rr * b + cc] as int == plane.at(
                        x + cc,
                        y + rr,
                    ),
                forall|cc: int|
                    0 <= cc < c ==> #[trigger] data@[r * b + cc] as int == plane.at(
                        x + cc,
                        y + r as int,
                    ),
                crate::fixed::all_bounded(data@, crate::fixed::VAL_LIMIT as int),
            decreases b - c,
        {
            data.push(plane.get(x + c, y + r));
            proof {
                assert forall|rr: int, cc: int|
                    0 <= rr < r && 0 <= cc < b implies #[trigger] data@[rr * b + cc] as int
                    == plane.at(x + cc, y + rr) by {
                    crate::fixed::lemma_row_major_lt(rr, cc, r as int, b as int);
                }
            }
            c = c + 1;
        }
        proof {
            assert(r as int * b as int + b as int == (r as int + 1) * b as int)
                by (nonlinear_arith);
            assert forall|rr: int, cc: int|
                0 <= rr < r as int + 1 && 0 <= cc < b implies #[trigger] data@[rr * b + cc] as int
                == plane.at(x + cc, y + rr) by {
                if rr == r as int {
                    assert(data@[r as int * b + cc] as int == plane.at(x + cc, y + r as int));
                }
            }
        }
        r = r + 1;
    }
    Some(Patch { top_left, data })
}

/// Squared difference of two samples.
pub open spec fn sq(d: int) -> int {
    d * d
}

/// Sum of squared differences along one row of two aligned patches.
pub open spec fn ssd_row(p: Plane, rx: int, ry: int, x: int, y: int, r: int, cnt: int) -> int
    decreases cnt,
{
    if cnt <= 0 {
        0
    } else {
        ssd_row(p, rx, ry, x, y, r, cnt - 1) + sq(
            p.at(rx + cnt - 1, ry + r) - p.at(x + cnt - 1, y + r),
        )
    }
}

/// Sum of squared differences between the `bs` by `bs` patches anchored at
/// `(rx, ry)` and `(x, y)`, over the first `rcnt` rows.
pub open spec fn dist_spec(p: Plane, rx: int, ry: int, x: int, y: int, bs: int, rcnt: int) -> int
    decreases rcnt,
{
    if rcnt <= 0 {
        0
    } else {
        dist_spec(p, rx, ry, x, y, bs, rcnt - 1) + ssd_row(p, rx, ry, x, y, rcnt - 1, bs)
    }
}

/// Row sums are between 0 and `cnt * 2^32`.
pub proof fn lemma_ssd_row_range(p: Plane, rx: int, ry: int, x: int, y: int, r: int, cnt: int)
    requires
        p.wf(),
        0 <= cnt,
        0 <= rx && rx + cnt <= p.width,
        0 <= x && x + cnt <= p.width,
        0 <= r,
        0 <= ry && ry + r < p.height,
        0 <= y && y + r < p.height,
    ensures
        0 <= ssd_row(p, rx, ry, x, y, r, cnt) <= cnt * 0x1_0000_0000,
    decreases cnt,
{
    if cnt > 0 {
        lemma_ssd_row_range(p, rx, ry, x, y, r, cnt - 1);
        p.lemma_index(rx + cnt - 1, ry + r);
        p.lemma_index(x + cnt - 1, y + r);
        let d = p.at(rx + cnt - 1, ry + r) - p.at(x + cnt - 1, y + r);
        assert(0 <= sq(d) <= 0x1_0000_0000) by (nonlinear_arith)
            requires
                -0x1_0000 < d < 0x1_0000,
        ;
        assert((cnt - 1) * 0x1_0000_0000 + 0x1_0000_0000 == cnt * 0x1_0000_0000)
            by (nonlinear_arith);
    }
}

/// Distances are between 0 and `rcnt * 8 * 2^32` for blocks of side at most 8.
pub proof fn lemma_dist_range(p: Plane, rx: int, ry: int, x: int, y: int, bs: int, rcnt: int)
    requires
        p.wf(),
        0 <= rcnt,
        0 <= bs <= 8,
        0 <= rx && rx + bs <= p.width,
        0 <= x && x + bs <= p.width,
        0 <= ry && ry + rcnt <= p.height,
        0 <= y && y + rcnt <= p.height,
    ensures
        0 <= dist_spec(p, rx, ry, x, y, bs, rcnt) <= rcnt * 0x8_0000_0000,
    decreases rcnt,
{
    if rcnt > 0 {
        lemma_dist_range(p, rx, ry, x, y, bs, rcnt - 1);
        lemma_ssd_row_range(p, rx, ry, x, y, rcnt - 1, bs);
        assert(bs * 0x1_0000_0000 <= 0x8_0000_0000) by (nonlinear_arith)
            requires
                bs <= 8,
        ;
        assert((rcnt - 1) * 0x8_0000_0000 + 0x8_0000_0000 == rcnt * 0x8_0000_0000)
            by (nonlinear_arith);
    }
}

/// Compute the sum of squared differences between the patches anchored at
/// `rp` and `a`, on one plane.
pub fn plane_ssd(plane: &Plane, rp: (usize, usize), a: (usize, usize), block_size: usize) -> (d:
    u64)
    requires
        plane.wf(),
        block_size <= 8,
        rp.0 + block_size <= plane.width,
        rp.1 + block_size <= plane.height,
        a.0 + block_size <= plane.width,
        a.1 + block_size <= plane.height,
    ensures
        d as int == dist_spec(
            *plane,
            rp.0 as int,
            rp.1 as int,
            a.0 as int,
            a.1 as int,
            block_size as int,
            block_size as int,
        ),
{
    let b = block_size;
    let mut acc: u64 = 0;
    let mut r: usize = 0;
    while r < b
        invariant
            plane.wf(),
            b <= 8,
            rp.0 + b <= plane.width,
            rp.1 + b <= plane.height,
            a.0 + b <= plane.width,
            a.1 + b <= plane.height,
            r <= b,
            acc as int == dist_spec(
                *plane,
                rp.0 as int,
                rp.1 as int,
                a.0 as int,
                a.1 as int,
                b as int,
                r as int,
            ),
            acc as int <= r as int * 0x8_0000_0000,
        decreases b - r,
    {
        let mut rowacc: u64 = 0;
        let mut c: usize = 0;
        while c < b
            invariant
                plane.wf(),
                b <= 8,
                rp.0 + b <= plane.width,
                rp.1 + b <= plane.height,
                a.0 + b <= plane.width,
                a.1 + b <= plane.height,
                r < b,
                c <= b,
                rowacc as int == ssd_row(
                    *plane,
                    rp.0 as int,
                    rp.1 as int,
                    a.0 as int,
                    a.1 as int,
                    r as int,
                    c as int,
                ),
                rowacc as int <= c as int * 0x1_0000_0000,
            decreases b - c,
        {
            let pv = plane.get(rp.0 + c, rp.1 + r);
            let qv = plane.get(a.0 + c, a.1 + r);
            let d = pv - qv;
            proof {
                assert(0 <= (d as int) * (d as int) <= 0x1_0000_0000) by (nonlinear_arith)
                    requires
                        -0x1_0000 < (d as int) < 0x1_0000,
                ;
            }
            rowacc = rowacc + ((d * d) as u64);
            c = c + 1;
        }
        proof {
            lemma_ssd_row_range(
                *plane,
                rp.0 as int,
                rp.1 as int,
                a.0 as int,
                a.1 as int,
                r as int,
                b as int,
            );
            assert(b as int * 0x1_0000_0000 <= 0x8_0000_0000) by (nonlinear_arith)
                requires
                    b as int <= 8,
            ;
            assert(r as int * 0x8_0000_0000 + 0x8_0000_0000 == (r as int + 1) * 0x8_0000_0000)
                by (nonlinear_arith);
            assert((r as int + 1) * 0x8_0000_0000 <= 8 * 0x8_0000_0000) by (nonlinear_arith)
                requires
                    r as int + 1 <= 8,
            ;
        }
        acc = acc + rowacc;
        r = r + 1;
    }
    acc
}

/// Sum of squared differences between two already extracted patches.
pub open spec fn ssd_seq(a: Seq<i64>, b: Seq<i64>, cnt: int) -> int
    decreases cnt,
{
    if cnt <= 0 {
        0
    } else {
        ssd_seq(a, b, cnt - 1) + sq(a[cnt - 1] as int - b[cnt - 1] as int)
    }
}

/// The L2 (squared Euclidean) distance between two patches of equal shape.
pub fn l2_patch_distance(a: &Patch, b: &Patch) -> (d: u64)
    requires
        a.data@.len() == b.data@.len(),
        a.data@.len() <= 64,
        forall|i: int| 0 <= i < a.data@.len() ==> 0 <= #[trigger] a.data@[i] <= PIX_MAX_Q8,
        forall|i: int| 0 <= i < b.data@.len() ==> 0 <= #[trigger] b.data@[i] <= PIX_MAX_Q8,
    ensures
        d as int == ssd_seq(a.data@, b.data@, a.data@.len() as int),
{
    let n = a.data.len();
    let mut acc: u64 = 0;
    let mut i: usize = 0;
    while i < n
        invariant
            n == a.data@.len(),
            n == b.data@.len(),
            n <= 64,
            forall|k: int| 0 <= k < n ==> 0 <= #[trigger] a.data@[k] <= PIX_MAX_Q8,
            forall|k: int| 0 <= k < n ==> 0 <= #[trigger] b.data@[k] <= PIX_MAX_Q8,
            i <= n,
            acc as int == ssd_seq(a.data@, b.data@, i as int),
            acc as int <= i as int * 0x1_0000_0000,
        decreases n - i,
    {
        let d = a.data[i] - b.data[i];
        proof {
            assert(0 <= (d as int) * (d as int) <= 0x1_0000_0000) by (nonlinear_arith)
                requires
                    -0x1_0000 < (d as int) < 0x1_0000,
            ;
            assert(i as int * 0x1_0000_0000 + 0x1_0000_0000 == (i as int + 1) * 0x1_0000_0000)
                by (nonlinear_arith);
            assert((i as int + 1) * 0x1_0000_0000 <= 64 * 0x1_0000_0000) by (nonlinear_arith)
                requires
                    i as int + 1 <= 64,
            ;
        }
        acc = acc + ((d * d) as u64);
        i = i + 1;
    }
    acc
}

/// One match candidate: an anchor and its distance to the reference.
pub struct MatchCand {
    /// Anchor x coordinate.
    pub x: usize,
    /// Anchor y coordinate.
    pub y: usize,
    /// Sum of squared differences to the reference patch.
    pub d: u64,
}

/// Strict matching order: by distance, ties broken in raster order.
pub open spec fn key_le(a: MatchCand, b: MatchCand) -> bool {
    ||| a.d < b.d
    ||| (a.d == b.d && (a.y < b.y || (a.y == b.y && a.x <= b.x)))
}

/// `(x, y)` is a survivor of the search around `rp`: inside the window,
/// distinct from the reference, and with distance below the threshold.
pub open spec fn is_cand(
    p: Plane,
    rp: (usize, usize),
    bs: int,
    ws: int,
    tau: int,
    x: int,
    y: int,
) -> bool {
    let win = window_spec(p.width as int, p.height as int, rp.0 as int, rp.1 as int, bs, ws);
    &&& win.0 <= x
    &&& x + bs <= win.2
    &&& win.1 <= y
    &&& y + bs <= win.3
    &&& !(x == rp.0 as int && y == rp.1 as int)
    &&& dist_spec(p, rp.0 as int, rp.1 as int, x, y, bs, bs) < tau
}

/// The candidate record at index `k` of `s` matches anchor `(x, y)`.
pub open spec fn in_cands(s: Seq<MatchCand>, x: int, y: int) -> bool {
    exists|k: int| 0 <= k < s.len() && (#[trigger] s[k]).x as int == x && s[k].y as int == y
}

/// Candidate records are well-formed for plane `p` and reference `rp`.
pub open spec fn cand_ok(
    c: MatchCand,
    p: Plane,
    rp: (usize, usize),
    bs: int,
    ws: int,
    tau: int,
) -> bool {
    &&& is_cand(p, rp, bs, ws, tau, c.x as int, c.y as int)
    &&& c.d as int == dist_spec(p, rp.0 as int, rp.1 as int, c.x as int, c.y as int, bs, bs)
}

/// Minimum of two integers.
pub open spec fn spec_min(a: int, b: int) -> int {
    if a < b {
        a
    } else {
        b
    }
}

/// Largest power of two at most `n`, capped at 16.
pub open spec fn pow2_floor_spec(n: int) -> int {
    if n >= 16 {
        16
    } else if n >= 8 {
        8
    } else if n >= 4 {
        4
    } else if n >= 2 {
        2
    } else {
        1
    }
}

/// Executable form of [`pow2_floor_spec`].
fn pow2_floor16(n: usize) -> (r: usize)
    ensures
        r as int == pow2_floor_spec(n as int),
{
    if n >= 16 {
        16
    } else if n >= 8 {
        8
    } else if n >= 4 {
        4
    } else if n >= 2 {
        2
    } else {
        1
    }
}

/// Executable form of [`key_le`].
fn key_le_exec(a: &MatchCand, b: &MatchCand) -> (r: bool)
    ensures
        r == key_le(*a, *b),
{
    a.d < b.d || (a.d == b.d && (a.y < b.y || (a.y == b.y && a.x <= b.x)))
}

/// The candidate list is sorted by the matching order.
pub open spec fn sorted_cands(s: Seq<MatchCand>) -> bool {
    forall|i: int, j: int| 0 <= i <= j < s.len() ==> key_le(s[i], s[j])
}

/// Sort candidates by distance, ties broken in raster order.
fn sort_cands(v: Vec<MatchCand>) -> (s: Vec<MatchCand>)
    ensures
        s@.to_multiset() == v@.to_multiset(),
        sorted_cands(s@),
        s@.len() == v@.len(),
{
    broadcast use vstd::seq_lib::group_to_multiset_ensures;

    let mut rest = v;
    let mut s: Vec<MatchCand> = Vec::new();
    proof {
        assert(s@.to_multiset().add(rest@.to_multiset()) =~= v@.to_multiset());
    }
    while rest.len() > 0
        invariant
            s@.to_multiset().add(rest@.to_multiset()) == v@.to_multiset(),
            sorted_cands(s@),
            forall|i: int, j: int|
                0 <= i < s@.len() && 0 <= j < rest@.len() ==> key_le(s@[i], rest@[j]),
            s@.len() + rest@.len() == v@.len(),
        decreases rest.len(),
    {
        let mut m: usize = 0;
        let mut i: usize = 1;
        while i < rest.len()
            invariant
                rest@.len() > 0,
                m < i,
                i <= rest@.len(),
                forall|j: int| 0 <= j < i ==> key_le(rest@[m as int], #[trigger] rest@[j]),
            decreases rest@.len() - i,
        {
            if !key_le_exec(&rest[m], &rest[i]) {
                m = i;
            }
            i = i + 1;
        }
        let ghost old_s = s@;
        let ghost old_rest = rest@;
        let c = rest.remove(m);
        s.push(c);
        proof {
            broadcast use vstd::multiset::group_multiset_axioms;

            old_rest.to_multiset_ensures();
            old_s.to_multiset_ensures();
            assert(old_rest[m as int] == c);
            assert(old_rest.contains(c));
            assert(old_rest.to_multiset().count(c) > 0);
            assert(rest@ == old_rest.remove(m as int));
            assert(old_rest.remove(m as int).to_multiset() =~= old_rest.to_multiset().remove(
                old_rest[m as int],
            ));
            assert(rest@.to_multiset() =~= old_rest.to_multiset().remove(c));
            assert(s@ == old_s.push(c));
            assert(old_s.push(c).to_multiset() =~= old_s.to_multiset().insert(c));
            assert(s@.to_multiset() =~= old_s.to_multiset().insert(c));
            assert(s@.to_multiset().add(rest@.to_multiset()) =~= v@.to_multiset());
        }
    }
    proof {
        assert(rest@.len() == 0);
        assert(rest@ =~= Seq::<MatchCand>::empty());
        assert(rest@.to_multiset() =~= Multiset::<MatchCand>::empty());
        assert(s@.to_multiset() =~= v@.to_multiset());
    }
    s
}

/// Comparison of two anchors by distance to the reference, ties broken in
/// raster order.
pub open spec fn anchor_key_le(
    p: Plane,
    rp: (usize, usize),
    bs: int,
    x1: int,
    y1: int,
    x2: int,
    y2: int,
) -> bool {
    let d1 = dist_spec(p, rp.0 as int, rp.1 as int, x1, y1, bs, bs);
    let d2 = dist_spec(p, rp.0 as int, rp.1 as int, x2, y2, bs, bs);
    ||| d1 < d2
    ||| (d1 == d2 && (y1 < y2 || (y1 == y2 && x1 <= x2)))
}

/// `all` lists exactly the survivors of the search: sound, exhaustive and
/// without duplicate anchors.
pub open spec fn cands_exhaustive(
    all: Seq<MatchCand>,
    p: Plane,
    rp: (usize, usize),
    bs: int,
    ws: int,
    tau: int,
) -> bool {
    &&& forall|k: int| 0 <= k < all.len() ==> cand_ok(#[trigger] all[k], p, rp, bs, ws, tau)
    &&& forall|ax: int, ay: int| is_cand(p, rp, bs, ws, tau, ax, ay) ==> in_cands(all, ax, ay)
    &&& forall|i: int, j: int|
        0 <= i < j < all.len() ==> !((#[trigger] all[i]).x == (#[trigger] all[j]).x && all[i].y
            == all[j].y)
}

/// The group `v` consists of the reference followed by the first entries of
/// the sorted survivor list `all`, with its length rounded down to a power
/// of two and capped by the group size limit.
pub open spec fn chosen_from(
    all: Seq<MatchCand>,
    v: Seq<Patch>,
    p: Plane,
    rp: (usize, usize),
    bs: int,
    ws: int,
    tau: int,
    maxm: int,
) -> bool {
    &&& cands_exhaustive(all, p, rp, bs, ws, tau)
    &&& sorted_cands(all)
    &&& v.len() == pow2_floor_spec(spec_min(all.len() as int + 1, spec_min(maxm, 16)))
    &&& forall|k: int|
        1 <= k < v.len() ==> (#[trigger] v[k]).top_left.0 as int == all[k - 1].x as int
            && v[k].top_left.1 as int == all[k - 1].y as int
}

/// Some tail entry of `v` sits at anchor `(ax, ay)`.
pub open spec fn has_anchor(v: Seq<Patch>, ax: int, ay: int) -> bool {
    exists|k: int|
        1 <= k < v.len() && (#[trigger] v[k]).top_left.0 as int == ax && v[k].top_left.1 as int
            == ay
}

/// The full contract of the similarity search: the reference comes first,
/// every entry is the patch at its anchor, the tail consists of survivors
/// sorted by distance, the group size is a power of two within the limit,
/// and no survivor outside the group beats one inside it.
pub open spec fn find_ok(
    v: Seq<Patch>,
    p: Plane,
    rp: (usize, usize),
    bs: int,
    ws: int,
    tau: int,
    maxm: int,
) -> bool {
    &&& 1 <= v.len() <= spec_min(maxm, 16)
    &&& (v.len() == 1 || v.len() == 2 || v.len() == 4 || v.len() == 8 || v.len() == 16)
    &&& v[0].top_left == rp
    &&& forall|k: int|
        0 <= k < v.len() ==> is_patch_of(
            (#[trigger] v[k]).data@,
            p,
            v[k].top_left.0 as int,
            v[k].top_left.1 as int,
            bs,
        ) && crate::fixed::all_bounded(v[k].data@, crate::fixed::VAL_LIMIT as int)
    &&& forall|k: int|
        1 <= k < v.len() ==> is_cand(
            p,
            rp,
            bs,
            ws,
            tau,
            (#[trigger] v[k]).top_left.0 as int,
            v[k].top_left.1 as int,
        )
    &&& forall|i: int, j: int|
        1 <= i <= j < v.len() ==> anchor_key_le(
            p,
            rp,
            bs,
            (#[trigger] v[i]).top_left.0 as int,
            v[i].top_left.1 as int,
            (#[trigger] v[j]).top_left.0 as int,
            v[j].top_left.1 as int,
        )
    &&& forall|ax: int, ay: int, k: int|
        #![trigger is_cand(p, rp, bs, ws, tau, ax, ay), v[k]]
        is_cand(p, rp, bs, ws, tau, ax, ay) && !has_anchor(v, ax, ay) && 1 <= k < v.len()
            ==> anchor_key_le(
            p,
            rp,
            bs,
            v[k].top_left.0 as int,
            v[k].top_left.1 as int,
            ax,
            ay,
        )
    &&& exists|all: Seq<MatchCand>| chosen_from(all, v, p, rp, bs, ws, tau, maxm)
}

/// Shape facts about the clamped search window.
pub proof fn lemma_window_props(w: int, h: int, rx: int, ry: int, bs: int, ws: int)
    requires
        0 <= rx,
        0 <= ry,
        0 < bs < ws,
        rx + bs <= w,
        ry + bs <= h,
    ensures
        ({
            let win = window_spec(w, h, rx, ry, bs, ws);
            &&& 0 <= win.0 <= rx
            &&& rx + bs <= win.2 <= w
            &&& 0 <= win.1 <= ry
            &&& ry + bs <= win.3 <= h
            &&& win.0 + bs <= win.2
            &&& win.1 + bs <= win.3
        }),
{
    let half = (ws - bs) / 2;
    assert(0 <= half);
    assert(2 * half <= ws - bs) by {
        assert(ws - bs == 2 * ((ws - bs) / 2) + (ws - bs) % 2);
        assert(0 <= (ws - bs) % 2 < 2);
    }
}

/// Find the most similar patches to the reference patch inside its search
/// window.  The reference itself comes first; the rest are the nearest
/// surviving candidates in order of increasing distance, the group length
/// rounded down to a power of two.
pub fn find_similar_patches(
    plane: &Plane,
    ref_point: (usize, usize),
    block_size: usize,
    window_size: usize,
    max_patches_per_group: usize,
    tau: u64,
) -> (res: Result<Vec<Patch>, ImageProcessingError>)
    requires
        plane.wf(),
        crate::dct::dct_size_ok(block_size as int),
        ref_point.0 + block_size <= plane.width,
        ref_point.1 + block_size <= plane.height,
        max_patches_per_group >= 1,
        window_size <= MAX_SIDE,
    ensures
        block_size >= window_size <==> res is Err,
        res matches Ok(v) ==> find_ok(
            v@,
            *plane,
            ref_point,
            block_size as int,
            window_size as int,
            tau as int,
            max_patches_per_group as int,
        ),
{
    broadcast use vstd::seq_lib::group_to_multiset_ensures;

    let margin = match search_window(plane, ref_point, block_size, window_size) {
        Ok(m) => m,
        Err(e) => {
            return Err(e);
        },
    };
    let bs = block_size;
    proof {
        lemma_window_props(
            plane.width as int,
            plane.height as int,
            ref_point.0 as int,
            ref_point.1 as int,
            bs as int,
            window_size as int,
        );
    }
    let wl = margin.top_left.0 as usize;
    let wt = margin.top_left.1 as usize;
    let wr = margin.bottom_right.0 as usize;
    let wb = margin.bottom_right.1 as usize;
    let ex = wr - bs;
    let ey = wb - bs;
    let ghost win = window_spec(
        plane.width as int,
        plane.height as int,
        ref_point.0 as int,
        ref_point.1 as int,
        bs as int,
        window_size as int,
    );

    // Scan the window in raster order, recording every survivor.
    let mut cands: Vec<MatchCand> = Vec::new();
    let mut y = wt;
    while y <= ey
        invariant
            plane.wf(),
            crate::dct::dct_size_ok(bs as int),
            ref_point.0 + bs <= plane.width,
            ref_point.1 + bs <= plane.height,
            bs < window_size,
            window_size <= MAX_SIDE,
            win == window_spec(
                plane.width as int,
                plane.height as int,
                ref_point.0 as int,
                ref_point.1 as int,
                bs as int,
                window_size as int,
            ),
            wl as int == win.0,
            wt as int == win.1,
            wr as int == win.2,
            wb as int == win.3,
            wl + bs <= wr <= plane.width,
            wt + bs <= wb <= plane.height,
            ex == wr - bs,
            ey == wb - bs,
            wt <= y <= ey + 1,
            forall|k: int|
                0 <= k < cands@.len() ==> cand_ok(
                    #[trigger] cands@[k],
                    *plane,
                    ref_point,
                    bs as int,
                    window_size as int,
                    tau as int,
                ),
            forall|ax: int, ay: int|
                is_cand(*plane, ref_point, bs as int, window_size as int, tau as int, ax, ay)
                    && ay < y ==> in_cands(cands@, ax, ay),
            forall|k: int|
                0 <= k < cands@.len() ==> ((#[trigger] cands@[k]).y < y),
            forall|i: int, j: int|
                0 <= i < j < cands@.len() ==> !((#[trigger] cands@[i]).x == (
                #[trigger] cands@[j]).x && cands@[i].y == cands@[j].y),
        decreases ey + 1 - y,
    {
        let mut x = wl;
        while x <= ex
            invariant
                plane.wf(),
                crate::dct::dct_size_ok(bs as int),
                ref_point.0 + bs <= plane.width,
                ref_point.1 + bs <= plane.height,
                bs < window_size,
                window_size <= MAX_SIDE,
                win == window_spec(
                    plane.width as int,
                    plane.height as int,
                    ref_point.0 as int,
                    ref_point.1 as int,
                    bs as int,
                    window_size as int,
                ),
                wl as int == win.0,
                wt as int == win.1,
                wr as int == win.2,
                wb as int == win.3,
                wl + bs <= wr <= plane.width,
                wt + bs <= wb <= plane.height,
                ex == wr - bs,
                ey == wb - bs,
                wt <= y <= ey,
                wl <= x <= ex + 1,
                forall|k: int|
                    0 <= k < cands@.len() ==> cand_ok(
                        #[trigger] cands@[k],
                        *plane,
                        ref_point,
                        bs as int,
                        window_size as int,
                        tau as int,
                    ),
                forall|ax: int, ay: int|
                    is_cand(*plane, ref_point, bs as int, window_size as int, tau as int, ax, ay)
                        && (ay < y || (ay == y && ax < x)) ==> in_cands(cands@, ax, ay),
                forall|k: int|
                    0 <= k < cands@.len() ==> ((#[trigger] cands@[k]).y < y || (cands@[k].y == y
                        && cands@[k].x < x)),
                forall|i: int, j: int|
                    0 <= i < j < cands@.len() ==> !((#[trigger] cands@[i]).x == (
                    #[trigger] cands@[j]).x && cands@[i].y == cands@[j].y),
            decreases ex + 1 - x,
        {
            let ghost cands0 = cands@;
            if !(x == ref_point.0 && y == ref_point.1) {
                let d = plane_ssd(plane, ref_point, (x, y), bs);
                if d < tau {
                    cands.push(MatchCand { x, y, d });
                    proof {
                        assert(cands@[cands@.len() - 1].x == x);
                        assert(in_cands(cands@, x as int, y as int));
                        assert forall|ax: int, ay: int|
                            in_cands(cands0, ax, ay) implies in_cands(cands@, ax, ay) by {
                            let k = choose|k: int|
                                0 <= k < cands0.len() && (#[trigger] cands0[k]).x as int == ax
                                    && cands0[k].y as int == ay;
                            assert(cands@[k] == cands0[k]);
                        }
                    }
                } else {
                    proof {
                        assert(!is_cand(
                            *plane,
                            ref_point,
                            bs as int,
                            window_size as int,
                            tau as int,
                            x as int,
                            y as int,
                        ));
                    }
                }
            } else {
                proof {
                    assert(!is_cand(
                        *plane,
                        ref_point,
                        bs as int,
                        window_size as int,
                        tau as int,
                        x as int,
                        y as int,
                    ));
                }
            }
            proof {
                assert(in_cands(cands@, x as int, y as int) || !is_cand(
                    *plane,
                    ref_point,
                    bs as int,
                    window_size as int,
                    tau as int,
                    x as int,
                    y as int,
                ));
                assert forall|ax: int, ay: int|
                    is_cand(
                        *plane,
                        ref_point,
                        bs as int,
                        window_size as int,
                        tau as int,
                        ax,
                        ay,
                    ) && (ay < y || (ay == y && ax < x + 1)) implies in_cands(cands@, ax, ay) by {
                    if ay == y as int && ax == x as int {
                        assert(in_cands(cands@, ax, ay));
                    } else {
                        assert(ay < y || (ay == y && ax < x));
                        assert(in_cands(cands0, ax, ay));
                        assert(in_cands(cands@, ax, ay));
                    }
                }
            }
            x = x + 1;
        }
        proof {
            assert forall|ax: int, ay: int|
                is_cand(
                    *plane,
                    ref_point,
                    bs as int,
                    window_size as int,
                    tau as int,
                    ax,
                    ay,
                ) && ay < y + 1 implies in_cands(cands@, ax, ay) by {
                assert(ax + bs <= win.2);
                assert(ax < x);
            }
        }
        y = y + 1;
    }

    let sorted = sort_cands(cands);
    proof {
        let cs = sorted@;
        assert forall|k: int|
            0 <= k < cs.len() implies cand_ok(
            #[trigger] cs[k],
            *plane,
            ref_point,
            bs as int,
            window_size as int,
            tau as int,
        ) by {
            assert(cs.contains(cs[k]));
            assert(cs.to_multiset().count(cs[k]) > 0);
            assert(cands@.to_multiset().count(cs[k]) > 0);
            assert(cands@.contains(cs[k]));
            let i = choose|i: int| 0 <= i < cands@.len() && cands@[i] == cs[k];
            assert(cand_ok(
                cands@[i],
                *plane,
                ref_point,
                bs as int,
                window_size as int,
                tau as int,
            ));
        }
        assert forall|ax: int, ay: int|
            is_cand(
                *plane,
                ref_point,
                bs as int,
                window_size as int,
                tau as int,
                ax,
                ay,
            ) implies in_cands(sorted@, ax, ay) by {
            assert(ay + bs <= win.3);
            assert(ay < ey + 1);
            assert(in_cands(cands@, ax, ay));
            let k = choose|k: int|
                0 <= k < cands@.len() && (#[trigger] cands@[k]).x as int == ax && cands@[k].y as int
                    == ay;
            let rec = cands@[k];
            assert(cands@.contains(rec));
            assert(cands@.to_multiset().count(rec) > 0);
            assert(sorted@.to_multiset().count(rec) > 0);
            assert(sorted@.contains(rec));
            let j = choose|j: int| 0 <= j < sorted@.len() && sorted@[j] == rec;
            assert(0 <= j < sorted@.len() && (#[trigger] sorted@[j]).x as int == ax
                && sorted@[j].y as int == ay);
        }
        assert(cands@.no_duplicates()) by {
            assert forall|i: int, j: int|
                0 <= i < cands@.len() && 0 <= j < cands@.len() && i != j implies cands@[i]
                != cands@[j] by {
                if i < j {
                    assert(!(cands@[i].x == cands@[j].x && cands@[i].y == cands@[j].y));
                } else {
                    assert(!(cands@[j].x == cands@[i].x && cands@[j].y == cands@[i].y));
                }
            }
        }
        cands@.lemma_multiset_has_no_duplicates();
        sorted@.lemma_multiset_has_no_duplicates_conv();
        assert forall|i: int, j: int|
            0 <= i < j < sorted@.len() implies !((#[trigger] sorted@[i]).x == (
        #[trigger] sorted@[j]).x && sorted@[i].y == sorted@[j].y) by {
            if sorted@[i].x == sorted@[j].x && sorted@[i].y == sorted@[j].y {
                assert(cand_ok(
                    sorted@[i],
                    *plane,
                    ref_point,
                    bs as int,
                    window_size as int,
                    tau as int,
                ));
                assert(cand_ok(
                    sorted@[j],
                    *plane,
                    ref_point,
                    bs as int,
                    window_size as int,
                    tau as int,
                ));
                assert(sorted@[i].d == sorted@[j].d);
                assert(sorted@[i] == sorted@[j]);
                assert(false);
            }
        }
    }

    // Group length: nearest power of two below the survivor count plus the
    // reference, capped by the group size limit (and 16, the largest stack).
    let cap = if max_patches_per_group < 16 {
        max_patches_per_group
    } else {
        16
    };
    let avail = if sorted.len() >= 16 {
        16
    } else {
        sorted.len() + 1
    };
    let n = pow2_floor16(
        if avail < cap {
            avail
        } else {
            cap
        },
    );
    proof {
        assert(n as int == pow2_floor_spec(
            spec_min(
                sorted@.len() as int + 1,
                spec_min(max_patches_per_group as int, 16),
            ),
        ));
    }
    let tail = n - 1;

    let mut out: Vec<Patch> = Vec::new();
    let refp = match extract_patch(plane, ref_point, bs) {
        Some(p) => p,
        None => {
            proof {
                assert(false);
            }
            return Err(ImageProcessingError::Other("Reference patch invalid"));
        },
    };
    out.push(refp);
    let mut k: usize = 0;
    while k < tail
        invariant
            plane.wf(),
            crate::dct::dct_size_ok(bs as int),
            ref_point.0 + bs <= plane.width,
            ref_point.1 + bs <= plane.height,
            bs < window_size,
            window_size <= MAX_SIDE,
            win == window_spec(
                plane.width as int,
                plane.height as int,
                ref_point.0 as int,
                ref_point.1 as int,
                bs as int,
                window_size as int,
            ),
            win.2 <= plane.width,
            win.3 <= plane.height,
            tail <= sorted@.len(),
            forall|kk: int|
                0 <= kk < sorted@.len() ==> cand_ok(
                    #[trigger] sorted@[kk],
                    *plane,
                    ref_point,
                    bs as int,
                    window_size as int,
                    tau as int,
                ),
            k <= tail,
            out@.len() == k + 1,
            out@[0].top_left == ref_point,
            is_patch_of(
                out@[0].data@,
                *plane,
                ref_point.0 as int,
                ref_point.1 as int,
                bs as int,
            ),
            crate::fixed::all_bounded(out@[0].data@, crate::fixed::VAL_LIMIT as int),
            forall|i: int|
                1 <= i < out@.len() ==> (#[trigger] out@[i]).top_left.0 as int == sorted@[i
                    - 1].x as int && out@[i].top_left.1 as int == sorted@[i - 1].y as int,
            forall|i: int|
                1 <= i < out@.len() ==> is_patch_of(
                    (#[trigger] out@[i]).data@,
                    *plane,
                    out@[i].top_left.0 as int,
                    out@[i].top_left.1 as int,
                    bs as int,
                ) && crate::fixed::all_bounded(out@[i].data@, crate::fixed::VAL_LIMIT as int),
        decreases tail - k,
    {
        let cx = sorted[k].x;
        let cy = sorted[k].y;
        proof {
            assert(cand_ok(
                sorted@[k as int],
                *plane,
                ref_point,
                bs as int,
                window_size as int,
                tau as int,
            ));
        }
        let p = match extract_patch(plane, (cx, cy), bs) {
            Some(p) => p,
            None => {
                proof {
                    assert(false);
                }
                return Err(ImageProcessingError::Other("Candidate patch invalid"));
            },
        };
        out.push(p);
        k = k + 1;
    }
    proof {
        lemma_find_ok(
            out@,
            sorted@,
            *plane,
            ref_point,
            bs as int,
            window_size as int,
            tau as int,
            max_patches_per_group as int,
        );
    }
    Ok(out)
}

/// From the construction invariants, conclude the full search contract.
proof fn lemma_find_ok(
    v: Seq<Patch>,
    all: Seq<MatchCand>,
    p: Plane,
    rp: (usize, usize),
    bs: int,
    ws: int,
    tau: int,
    maxm: int,
)
    requires
        maxm >= 1,
        cands_exhaustive(all, p, rp, bs, ws, tau),
        sorted_cands(all),
        v.len() == pow2_floor_spec(spec_min(all.len() as int + 1, spec_min(maxm, 16))),
        v.len() >= 1,
        v.len() as int - 1 <= all.len(),
        v[0].top_left == rp,
        is_patch_of(v[0].data@, p, rp.0 as int, rp.1 as int, bs),
        crate::fixed::all_bounded(v[0].data@, crate::fixed::VAL_LIMIT as int),
        forall|i: int|
            1 <= i < v.len() ==> (#[trigger] v[i]).top_left.0 as int == all[i - 1].x as int
                && v[i].top_left.1 as int == all[i - 1].y as int,
        forall|i: int|
            1 <= i < v.len() ==> is_patch_of(
                (#[trigger] v[i]).data@,
                p,
                v[i].top_left.0 as int,
                v[i].top_left.1 as int,
                bs,
            ) && crate::fixed::all_bounded(v[i].data@, crate::fixed::VAL_LIMIT as int),
    ensures
        find_ok(v, p, rp, bs, ws, tau, maxm),
{
    assert(1 <= v.len() <= spec_min(maxm, 16));
    assert forall|k: int|
        1 <= k < v.len() implies is_cand(
        p,
        rp,
        bs,
        ws,
        tau,
        (#[trigger] v[k]).top_left.0 as int,
        v[k].top_left.1 as int,
    ) by {
        assert(cand_ok(all[k - 1], p, rp, bs, ws, tau));
    }
    assert forall|i: int, j: int|
        1 <= i <= j < v.len() implies anchor_key_le(
        p,
        rp,
        bs,
        (#[trigger] v[i]).top_left.0 as int,
        v[i].top_left.1 as int,
        (#[trigger] v[j]).top_left.0 as int,
        v[j].top_left.1 as int,
    ) by {
        assert(cand_ok(all[i - 1], p, rp, bs, ws, tau));
        assert(cand_ok(all[j - 1], p, rp, bs, ws, tau));
        assert(key_le(all[i - 1], all[j - 1]));
    }
    assert forall|ax: int, ay: int, k: int|
        #![trigger is_cand(p, rp, bs, ws, tau, ax, ay), v[k]]
        is_cand(p, rp, bs, ws, tau, ax, ay) && !has_anchor(v, ax, ay) && 1 <= k
            < v.len() implies anchor_key_le(
        p,
        rp,
        bs,
        v[k].top_left.0 as int,
        v[k].top_left.1 as int,
        ax,
        ay,
    ) by {
        assert(in_cands(all, ax, ay));
        let j = choose|j: int|
            0 <= j < all.len() && (#[trigger] all[j]).x as int == ax && all[j].y as int == ay;
        if j < v.len() - 1 {
            assert(v[j + 1].top_left.0 as int == ax && v[j + 1].top_left.1 as int == ay);
            assert(has_anchor(v, ax, ay));
            assert(false);
        }
        assert(key_le(all[k - 1], all[j]));
        assert(cand_ok(all[k - 1], p, rp, bs, ws, tau));
        assert(cand_ok(all[j], p, rp, bs, ws, tau));
    }
    assert(chosen_from(all, v, p, rp, bs, ws, tau, maxm));
}

/// Equal keys force equal candidates: the tie-break includes the anchor,
/// and the distance is pinned by the anchor.
proof fn lemma_key_antisym(
    a: MatchCand,
    c: MatchCand,
    p: Plane,
    rp: (usize, usize),
    bs: int,
    ws: int,
    tau: int,
)
    requires
        cand_ok(a, p, rp, bs, ws, tau),
        cand_ok(c, p, rp, bs, ws, tau),
        key_le(a, c),
        key_le(c, a),
    ensures
        a == c,
{
    assert(a.d == c.d && a.y == c.y && a.x == c.x);
}

/// Two sorted, exhaustive, duplicate-free survivor lists agree on every
/// index below both lengths.
proof fn lemma_cands_prefix_eq(
    s1: Seq<MatchCand>,
    s2: Seq<MatchCand>,
    p: Plane,
    rp: (usize, usize),
    bs: int,
    ws: int,
    tau: int,
    i: int,
)
    requires
        cands_exhaustive(s1, p, rp, bs, ws, tau),
        sorted_cands(s1),
        cands_exhaustive(s2, p, rp, bs, ws, tau),
        sorted_cands(s2),
        0 <= i,
        i <= s1.len(),
        i <= s2.len(),
    ensures
        forall|j: int| 0 <= j < i ==> s1[j] == s2[j],
    decreases i,
{
    if i > 0 {
        lemma_cands_prefix_eq(s1, s2, p, rp, bs, ws, tau, i - 1);
        let x = s1[i - 1];
        assert(cand_ok(x, p, rp, bs, ws, tau));
        assert(in_cands(s2, x.x as int, x.y as int));
        let j = choose|j: int|
            0 <= j < s2.len() && (#[trigger] s2[j]).x as int == x.x as int && s2[j].y as int
                == x.y as int;
        assert(cand_ok(s2[j], p, rp, bs, ws, tau));
        assert(s2[j] == x);
        if j < i - 1 {
            assert(s2[j] == s1[j]);
            assert(!((s1[j]).x == (s1[i - 1]).x && s1[j].y == s1[i - 1].y));
            assert(false);
        } else if j > i - 1 {
            assert(key_le(s2[i - 1], s2[j]));
            let y = s2[i - 1];
            assert(cand_ok(y, p, rp, bs, ws, tau));
            assert(in_cands(s1, y.x as int, y.y as int));
            let jj = choose|jj: int|
                0 <= jj < s1.len() && (#[trigger] s1[jj]).x as int == y.x as int && s1[jj].y as int
                    == y.y as int;
            assert(cand_ok(s1[jj], p, rp, bs, ws, tau));
            assert(s1[jj] == y);
            if jj < i - 1 {
                assert(s1[jj] == s2[jj]);
                assert(!((s2[jj]).x == (s2[i - 1]).x && s2[jj].y == s2[i - 1].y));
                assert(false);
            } else if jj > i - 1 {
                assert(key_le(s1[i - 1], s1[jj]));
                lemma_key_antisym(x, y, p, rp, bs, ws, tau);
            }
        }
    }
}

/// Two sorted, exhaustive, duplicate-free survivor lists are equal: the
/// similarity search's survivor order is a function of its inputs.
pub proof fn lemma_cands_unique(
    s1: Seq<MatchCand>,
    s2: Seq<MatchCand>,
    p: Plane,
    rp: (usize, usize),
    bs: int,
    ws: int,
    tau: int,
)
    requires
        cands_exhaustive(s1, p, rp, bs, ws, tau),
        sorted_cands(s1),
        cands_exhaustive(s2, p, rp, bs, ws, tau),
        sorted_cands(s2),
    ensures
        s1 =~= s2,
{
    if s1.len() < s2.len() {
        lemma_cands_prefix_eq(s1, s2, p, rp, bs, ws, tau, s1.len() as int);
        let y = s2[s1.len() as int];
        assert(cand_ok(y, p, rp, bs, ws, tau));
        assert(in_cands(s1, y.x as int, y.y as int));
        let jj = choose|jj: int|
            0 <= jj < s1.len() && (#[trigger] s1[jj]).x as int == y.x as int && s1[jj].y as int
                == y.y as int;
        assert(s1[jj] == s2[jj]);
        assert(!((s2[jj]).x == (s2[s1.len() as int]).x && s2[jj].y == s2[s1.len() as int].y));
        assert(false);
    } else if s2.len() < s1.len() {
        lemma_cands_prefix_eq(s1, s2, p, rp, bs, ws, tau, s2.len() as int);
        let y = s1[s2.len() as int];
        assert(cand_ok(y, p, rp, bs, ws, tau));
        assert(in_cands(s2, y.x as int, y.y as int));
        let jj = choose|jj: int|
            0 <= jj < s2.len() && (#[trigger] s2[jj]).x as int == y.x as int && s2[jj].y as int
                == y.y as int;
        assert(s2[jj] == s1[jj]);
        assert(!((s1[jj]).x == (s1[s2.len() as int]).x && s1[jj].y == s1[s2.len() as int].y));
        assert(false);
    } else {
        lemma_cands_prefix_eq(s1, s2, p, rp, bs, ws, tau, s1.len() as int);
    }
}

} // verus!