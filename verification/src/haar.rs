//! Orthonormal 1-D transform across the stack dimension of a group.
//!
//! The across-stack transform is a normalized Walsh-Hadamard transform, the
//! Hadamard-ordered equivalent of the orthonormal Haar transform on stacks
//! whose length is a power of two (1, 2, 4, 8 or 16).  The transform matrix
//! has entries `(-1)^popcount(u & t) / sqrt(n)`; it is its own inverse, so
//! one function serves both directions.

use vstd::prelude::*;

use crate::fixed::{all_bounded, lemma_mul_bound, rsh15_sat, sat15_spec, VAL_LIMIT};

verus! {

/// Stack lengths the transform supports.
pub open spec fn stack_size_ok(n: int) -> bool {
    n == 1 || n == 2 || n == 4 || n == 8 || n == 16
}

/// `round(2^15 / sqrt(n))` for the supported stack lengths.
pub open spec fn wht_norm(n: int) -> int {
    if n == 1 {
        32768
    } else if n == 2 {
        23170
    } else if n == 4 {
        16384
    } else if n == 8 {
        11585
    } else {
        8192
    }
}

/// Executable form of [`wht_norm`].
pub fn wht_norm_exec(n: usize) -> (r: i64)
    requires
        stack_size_ok(n as int),
    ensures
        r as int == wht_norm(n as int),
{
    if n == 1 {
        32768
    } else if n == 2 {
        23170
    } else if n == 4 {
        16384
    } else if n == 8 {
        11585
    } else {
        8192
    }
}

/// Whether `w` (0..=15) has an odd number of set bits.
pub open spec fn odd_parity16(w: u32) -> bool {
    w == 1 || w == 2 || w == 4 || w == 7 || w == 8 || w == 11 || w == 13 || w == 14
}

/// Sign of entry `(u, t)` of the Hadamard matrix: `(-1)^popcount(u & t)`.
pub open spec fn wht_sign(u: u32, t: u32) -> int {
    if odd_parity16(u & t) {
        -1
    } else {
        1
    }
}

/// Executable form of [`wht_sign`].
pub fn wht_sign_exec(u: u32, t: u32) -> (r: i64)
    ensures
        r as int == wht_sign(u, t),
{
    let w = u & t;
    if w == 1 || w == 2 || w == 4 || w == 7 || w == 8 || w == 11 || w == 13 || w == 14 {
        -1
    } else {
        1
    }
}

/// Partial signed sum of a stack column against Hadamard row `u`.
pub open spec fn wht_dot(x: Seq<i64>, u: u32, cnt: int) -> int
    decreases cnt,
{
    if cnt <= 0 {
        0
    } else {
        wht_dot(x, u, cnt - 1) + x[cnt - 1] * wht_sign(u, (cnt - 1) as u32)
    }
}

/// One output value of the across-stack transform.
pub open spec fn wht1d_spec(x: Seq<i64>, u: u32) -> int {
    sat15_spec(wht_norm(x.len() as int) * wht_dot(x, u, x.len() as int))
}

/// The stack column of a group at block position `(r, c)`.
pub open spec fn stack_col(g: Seq<Seq<Seq<i64>>>, r: int, c: int) -> Seq<i64> {
    Seq::new(g.len(), |t: int| g[t][r][c])
}

/// Well-formed group: `n` layers, each a well-formed `b` by `b` block.
pub open spec fn group_wf(g: Seq<Seq<Seq<i64>>>, n: int, b: int) -> bool {
    &&& g.len() == n
    &&& forall|k: int| 0 <= k < n ==> crate::dct::block_wf(#[trigger] g[k], b)
}

/// The whole group after the across-stack transform.
pub open spec fn wht_group_spec(g: Seq<Seq<Seq<i64>>>, n: int, b: int) -> Seq<Seq<Seq<i64>>> {
    Seq::new(
        n as nat,
        |k: int|
            Seq::new(
                b as nat,
                |r: int| Seq::new(b as nat, |c: int| wht1d_spec(stack_col(g, r, c), k as u32) as i64),
            ),
    )
}

/// Apply the normalized Walsh-Hadamard transform along the stack axis of a
/// group, in place.  The transform is self-inverse, so the same function
/// implements both directions.
pub fn wht_across(group: &mut Vec<Vec<Vec<i64>>>, block_size: usize)
    requires
        stack_size_ok(old(group).len() as int),
        crate::dct::dct_size_ok(block_size as int),
        group_wf(old(group).deep_view(), old(group).len() as int, block_size as int),
    ensures
        final(group).len() == old(group).len(),
        group_wf(final(group).deep_view(), old(group).len() as int, block_size as int),
        final(group).deep_view() == wht_group_spec(
            old(group).deep_view(),
            old(group).len() as int,
            block_size as int,
        ),
{
    let n = group.len();
    let b = block_size;
    let ghost orig = group.deep_view();
    proof {
        assert forall|t: int| 0 <= t < n implies (#[trigger] group@[t])@.len() == b by {
            assert(orig[t] =~= group@[t].deep_view());
            assert(crate::dct::block_wf(orig[t], b as int));
        }
        assert forall|t: int, r: int|
            0 <= t < n && 0 <= r < b implies (#[trigger] group@[t]@[r])@.len() == b
            && all_bounded(group@[t]@[r]@, VAL_LIMIT as int) by {
            assert(orig[t] =~= group@[t].deep_view());
            assert(crate::dct::block_wf(orig[t], b as int));
            assert(orig[t][r] == group@[t]@[r].deep_view());
            assert(group@[t]@[r].deep_view() =~= group@[t]@[r]@);
            assert(all_bounded(orig[t][r], VAL_LIMIT as int));
        }
    }
    let mut out: Vec<Vec<Vec<i64>>> = Vec::new();
    let mut k: usize = 0;
    while k < n
        invariant
            stack_size_ok(n as int),
            crate::dct::dct_size_ok(b as int),
            group.len() == n,
            group.deep_view() == orig,
            group_wf(orig, n as int, b as int),
            forall|t: int| 0 <= t < n ==> (#[trigger] group@[t])@.len() == b,
            forall|t: int, r: int|
                0 <= t < n && 0 <= r < b ==> (#[trigger] group@[t]@[r])@.len() == b && all_bounded(
                    group@[t]@[r]@,
                    VAL_LIMIT as int,
                ),
            k <= n,
            out.len() == k,
            forall|kk: int| 0 <= kk < k ==> (#[trigger] out@[kk])@.len() == b,
            forall|kk: int, r: int|
                0 <= kk < k && 0 <= r < b ==> (#[trigger] out@[kk]@[r])@.len() == b,
            forall|kk: int, r: int, c: int|
                0 <= kk < k && 0 <= r < b && 0 <= c < b ==> out@[kk]@[r]@[c] as int == wht1d_spec(
                    stack_col(orig, r, c),
                    kk as u32,
                ),
        decreases n - k,
    {
        let mut layer: Vec<Vec<i64>> = Vec::new();
        let mut r: usize = 0;
        while r < b
            invariant
                stack_size_ok(n as int),
                crate::dct::dct_size_ok(b as int),
                group.len() == n,
                group.deep_view() == orig,
                group_wf(orig, n as int, b as int),
                forall|t: int| 0 <= t < n ==> (#[trigger] group@[t])@.len() == b,
                forall|t: int, rr: int|
                    0 <= t < n && 0 <= rr < b ==> (#[trigger] group@[t]@[rr])@.len() == b
                        && all_bounded(group@[t]@[rr]@, VAL_LIMIT as int),
                k < n,
                r <= b,
                layer.len() == r,
                forall|rr: int| 0 <= rr < r ==> (#[trigger] layer@[rr])@.len() == b,
                forall|rr: int, c: int|
                    0 <= rr < r && 0 <= c < b ==> layer@[rr]@[c] as int == wht1d_spec(
                        stack_col(orig, rr, c),
                        k as u32,
                    ),
            decreases b - r,
        {
            let mut row: Vec<i64> = Vec::new();
            let mut c: usize = 0;
            while c < b
                invariant
                    stack_size_ok(n as int),
                    crate::dct::dct_size_ok(b as int),
                    group.len() == n,
                    group.deep_view() == orig,
                    group_wf(orig, n as int, b as int),
                    forall|t: int| 0 <= t < n ==> (#[trigger] group@[t])@.len() == b,
                    forall|t: int, rr: int|
                        0 <= t < n && 0 <= rr < b ==> (#[trigger] group@[t]@[rr])@.len() == b
                            && all_bounded(group@[t]@[rr]@, VAL_LIMIT as int),
                    k < n,
                    r < b,
                    c <= b,
                    row@.len() == c,
                    forall|cc: int|
                        0 <= cc < c ==> row@[cc] as int == wht1d_spec(
                            stack_col(orig, r as int, cc),
                            k as u32,
                        ),
                decreases b - c,
            {
                let mut acc: i64 = 0;
                let mut t: usize = 0;
                while t < n
                    invariant
                        stack_size_ok(n as int),
                        group.len() == n,
                        group.deep_view() == orig,
                        group_wf(orig, n as int, b as int),
                        forall|tt: int| 0 <= tt < n ==> (#[trigger] group@[tt])@.len() == b,
                        forall|tt: int, rr: int|
                            0 <= tt < n && 0 <= rr < b ==> (#[trigger] group@[tt]@[rr])@.len() == b
                                && all_bounded(group@[tt]@[rr]@, VAL_LIMIT as int),
                        k < n,
                        r < b,
                        c < b,
                        t <= n,
                        acc as int == wht_dot(stack_col(orig, r as int, c as int), k as u32, t as int),
                        -(t as int * (VAL_LIMIT as int)) <= acc as int <= t as int * (
                        VAL_LIMIT as int),
                    decreases n - t,
                {
                    let s = wht_sign_exec(k as u32, t as u32);
                    let v = group[t][r][c];
                    proof {
                        assert(stack_col(orig, r as int, c as int)[t as int] == orig[t as int][r as int][c as int]);
                        assert(s == 1 || s == -1);
                    }
                    acc = acc + v * s;
                    t = t + 1;
                }
                let m = wht_norm_exec(n);
                proof {
                    lemma_mul_bound(acc as int, m as int, 16 * (VAL_LIMIT as int), 32768);
                }
                let v = rsh15_sat(acc * m);
                proof {
                    let col = stack_col(orig, r as int, c as int);
                    assert(col.len() == n);
                    assert(acc as int == wht_dot(col, k as u32, n as int));
                    assert(v as int == sat15_spec((acc * m) as int));
                    assert((acc * m) as int == wht_norm(n as int) * wht_dot(col, k as u32, n as int));
                    assert(v as int == wht1d_spec(col, k as u32));
                }
                row.push(v);
                c = c + 1;
            }
            layer.push(row);
            r = r + 1;
        }
        out.push(layer);
        k = k + 1;
    }
    *group = out;
    proof {
        assert(group.deep_view() =~~= wht_group_spec(orig, n as int, b as int));
    }
}

/// Partial sum of the signs of Hadamard row `u`.
pub open spec fn wht_sign_sum(u: u32, cnt: int) -> int
    decreases cnt,
{
    if cnt <= 0 {
        0
    } else {
        wht_sign_sum(u, cnt - 1) + wht_sign(u, (cnt - 1) as u32)
    }
}

/// All the bitwise conjunctions of row and column indices below 16, written
/// out so that the sign sums below evaluate.
proof fn lemma_and_table()
    ensures
        1u32 & 0u32 == 0u32
            && 1u32 & 1u32 == 1u32
            && 1u32 & 2u32 == 0u32
            && 1u32 & 3u32 == 1u32
            && 1u32 & 4u32 == 0u32
            && 1u32 & 5u32 == 1u32
            && 1u32 & 6u32 == 0u32
            && 1u32 & 7u32 == 1u32
            && 1u32 & 8u32 == 0u32
            && 1u32 & 9u32 == 1u32
            && 1u32 & 10u32 == 0u32
            && 1u32 & 11u32 == 1u32
            && 1u32 & 12u32 == 0u32
            && 1u32 & 13u32 == 1u32
            && 1u32 & 14u32 == 0u32
            && 1u32 & 15u32 == 1u32
            && 2u32 & 0u32 == 0u32
            && 2u32 & 1u32 == 0u32
            && 2u32 & 2u32 == 2u32
            && 2u32 & 3u32 == 2u32
            && 2u32 & 4u32 == 0u32
            && 2u32 & 5u32 == 0u32
            && 2u32 & 6u32 == 2u32
            && 2u32 & 7u32 == 2u32
            && 2u32 & 8u32 == 0u32
            && 2u32 & 9u32 == 0u32
            && 2u32 & 10u32 == 2u32
            && 2u32 & 11u32 == 2u32
            && 2u32 & 12u32 == 0u32
            && 2u32 & 13u32 == 0u32
            && 2u32 & 14u32 == 2u32
            && 2u32 & 15u32 == 2u32
            && 3u32 & 0u32 == 0u32
            && 3u32 & 1u32 == 1u32
            && 3u32 & 2u32 == 2u32
            && 3u32 & 3u32 == 3u32
            && 3u32 & 4u32 == 0u32
            && 3u32 & 5u32 == 1u32
            && 3u32 & 6u32 == 2u32
            && 3u32 & 7u32 == 3u32
            && 3u32 & 8u32 == 0u32
            && 3u32 & 9u32 == 1u32
            && 3u32 & 10u32 == 2u32
            && 3u32 & 11u32 == 3u32
            && 3u32 & 12u32 == 0u32
            && 3u32 & 13u32 == 1u32
            && 3u32 & 14u32 == 2u32
            && 3u32 & 15u32 == 3u32
            && 4u32 & 0u32 == 0u32
            && 4u32 & 1u32 == 0u32
            && 4u32 & 2u32 == 0u32
            && 4u32 & 3u32 == 0u32
            && 4u32 & 4u32 == 4u32
            && 4u32 & 5u32 == 4u32
            && 4u32 & 6u32 == 4u32
            && 4u32 & 7u32 == 4u32
            && 4u32 & 8u32 == 0u32
            && 4u32 & 9u32 == 0u32
            && 4u32 & 10u32 == 0u32
            && 4u32 & 11u32 == 0u32
            && 4u32 & 12u32 == 4u32
            && 4u32 & 13u32 == 4u32
            && 4u32 & 14u32 == 4u32
            && 4u32 & 15u32 == 4u32
            && 5u32 & 0u32 == 0u32
            && 5u32 & 1u32 == 1u32
            && 5u32 & 2u32 == 0u32
            && 5u32 & 3u32 == 1u32
            && 5u32 & 4u32 == 4u32
            && 5u32 & 5u32 == 5u32
            && 5u32 & 6u32 == 4u32
            && 5u32 & 7u32 == 5u32
            && 5u32 & 8u32 == 0u32
            && 5u32 & 9u32 == 1u32
            && 5u32 & 10u32 == 0u32
            && 5u32 & 11u32 == 1u32
            && 5u32 & 12u32 == 4u32
            && 5u32 & 13u32 == 5u32
            && 5u32 & 14u32 == 4u32
            && 5u32 & 15u32 == 5u32
            && 6u32 & 0u32 == 0u32
            && 6u32 & 1u32 == 0u32
            && 6u32 & 2u32 == 2u32
            && 6u32 & 3u32 == 2u32
            && 6u32 & 4u32 == 4u32
            && 6u32 & 5u32 == 4u32
            && 6u32 & 6u32 == 6u32
            && 6u32 & 7u32 == 6u32
            && 6u32 & 8u32 == 0u32
            && 6u32 & 9u32 == 0u32
            && 6u32 & 10u32 == 2u32
            && 6u32 & 11u32 == 2u32
            && 6u32 & 12u32 == 4u32
            && 6u32 & 13u32 == 4u32
            && 6u32 & 14u32 == 6u32
            && 6u32 & 15u32 == 6u32
            && 7u32 & 0u32 == 0u32
            && 7u32 & 1u32 == 1u32
            && 7u32 & 2u32 == 2u32
            && 7u32 & 3u32 == 3u32
            && 7u32 & 4u32 == 4u32
            && 7u32 & 5u32 == 5u32
            && 7u32 & 6u32 == 6u32
            && 7u32 & 7u32 == 7u32
            && 7u32 & 8u32 == 0u32
            && 7u32 & 9u32 == 1u32
            && 7u32 & 10u32 == 2u32
            && 7u32 & 11u32 == 3u32
            && 7u32 & 12u32 == 4u32
            && 7u32 & 13u32 == 5u32
            && 7u32 & 14u32 == 6u32
            && 7u32 & 15u32 == 7u32
            && 8u32 & 0u32 == 0u32
            && 8u32 & 1u32 == 0u32
            && 8u32 & 2u32 == 0u32
            && 8u32 & 3u32 == 0u32
            && 8u32 & 4u32 == 0u32
            && 8u32 & 5u32 == 0u32
            && 8u32 & 6u32 == 0u32
            && 8u32 & 7u32 == 0u32
            && 8u32 & 8u32 == 8u32
            && 8u32 & 9u32 == 8u32
            && 8u32 & 10u32 == 8u32
            && 8u32 & 11u32 == 8u32
            && 8u32 & 12u32 == 8u32
            && 8u32 & 13u32 == 8u32
            && 8u32 & 14u32 == 8u32
            && 8u32 & 15u32 == 8u32
            && 9u32 & 0u32 == 0u32
            && 9u32 & 1u32 == 1u32
            && 9u32 & 2u32 == 0u32
            && 9u32 & 3u32 == 1u32
            && 9u32 & 4u32 == 0u32
            && 9u32 & 5u32 == 1u32
            && 9u32 & 6u32 == 0u32
            && 9u32 & 7u32 == 1u32
            && 9u32 & 8u32 == 8u32
            && 9u32 & 9u32 == 9u32
            && 9u32 & 10u32 == 8u32
            && 9u32 & 11u32 == 9u32
            && 9u32 & 12u32 == 8u32
            && 9u32 & 13u32 == 9u32
            && 9u32 & 14u32 == 8u32
            && 9u32 & 15u32 == 9u32
            && 10u32 & 0u32 == 0u32
            && 10u32 & 1u32 == 0u32
            && 10u32 & 2u32 == 2u32
            && 10u32 & 3u32 == 2u32
            && 10u32 & 4u32 == 0u32
            && 10u32 & 5u32 == 0u32
            && 10u32 & 6u32 == 2u32
            && 10u32 & 7u32 == 2u32
            && 10u32 & 8u32 == 8u32
            && 10u32 & 9u32 == 8u32
            && 10u32 & 10u32 == 10u32
            && 10u32 & 11u32 == 10u32
            && 10u32 & 12u32 == 8u32
            && 10u32 & 13u32 == 8u32
            && 10u32 & 14u32 == 10u32
            && 10u32 & 15u32 == 10u32
            && 11u32 & 0u32 == 0u32
            && 11u32 & 1u32 == 1u32
            && 11u32 & 2u32 == 2u32
            && 11u32 & 3u32 == 3u32
            && 11u32 & 4u32 == 0u32
            && 11u32 & 5u32 == 1u32
            && 11u32 & 6u32 == 2u32
            && 11u32 & 7u32 == 3u32
            && 11u32 & 8u32 == 8u32
            && 11u32 & 9u32 == 9u32
            && 11u32 & 10u32 == 10u32
            && 11u32 & 11u32 == 11u32
            && 11u32 & 12u32 == 8u32
            && 11u32 & 13u32 == 9u32
            && 11u32 & 14u32 == 10u32
            && 11u32 & 15u32 == 11u32
            && 12u32 & 0u32 == 0u32
            && 12u32 & 1u32 == 0u32
            && 12u32 & 2u32 == 0u32
            && 12u32 & 3u32 == 0u32
            && 12u32 & 4u32 == 4u32
            && 12u32 & 5u32 == 4u32
            && 12u32 & 6u32 == 4u32
            && 12u32 & 7u32 == 4u32
            && 12u32 & 8u32 == 8u32
            && 12u32 & 9u32 == 8u32
            && 12u32 & 10u32 == 8u32
            && 12u32 & 11u32 == 8u32
            && 12u32 & 12u32 == 12u32
            && 12u32 & 13u32 == 12u32
            && 12u32 & 14u32 == 12u32
            && 12u32 & 15u32 == 12u32
            && 13u32 & 0u32 == 0u32
            && 13u32 & 1u32 == 1u32
            && 13u32 & 2u32 == 0u32
            && 13u32 & 3u32 == 1u32
            && 13u32 & 4u32 == 4u32
            && 13u32 & 5u32 == 5u32
            && 13u32 & 6u32 == 4u32
            && 13u32 & 7u32 == 5u32
            && 13u32 & 8u32 == 8u32
            && 13u32 & 9u32 == 9u32
            && 13u32 & 10u32 == 8u32
            && 13u32 & 11u32 == 9u32
            && 13u32 & 12u32 == 12u32
            && 13u32 & 13u32 == 13u32
            && 13u32 & 14u32 == 12u32
            && 13u32 & 15u32 == 13u32
            && 14u32 & 0u32 == 0u32
            && 14u32 & 1u32 == 0u32
            && 14u32 & 2u32 == 2u32
            && 14u32 & 3u32 == 2u32
            && 14u32 & 4u32 == 4u32
            && 14u32 & 5u32 == 4u32
            && 14u32 & 6u32 == 6u32
            && 14u32 & 7u32 == 6u32
            && 14u32 & 8u32 == 8u32
            && 14u32 & 9u32 == 8u32
            && 14u32 & 10u32 == 10u32
            && 14u32 & 11u32 == 10u32
            && 14u32 & 12u32 == 12u32
            && 14u32 & 13u32 == 12u32
            && 14u32 & 14u32 == 14u32
            && 14u32 & 15u32 == 14u32
            && 15u32 & 0u32 == 0u32
            && 15u32 & 1u32 == 1u32
            && 15u32 & 2u32 == 2u32
            && 15u32 & 3u32 == 3u32
            && 15u32 & 4u32 == 4u32
            && 15u32 & 5u32 == 5u32
            && 15u32 & 6u32 == 6u32
            && 15u32 & 7u32 == 7u32
            && 15u32 & 8u32 == 8u32
            && 15u32 & 9u32 == 9u32
            && 15u32 & 10u32 == 10u32
            && 15u32 & 11u32 == 11u32
            && 15u32 & 12u32 == 12u32
            && 15u32 & 13u32 == 13u32
            && 15u32 & 14u32 == 14u32
            && 15u32 & 15u32 == 15u32,
{
    assert(1u32 & 0u32 == 0u32
            && 1u32 & 1u32 == 1u32
            && 1u32 & 2u32 == 0u32
            && 1u32 & 3u32 == 1u32
            && 1u32 & 4u32 == 0u32
            && 1u32 & 5u32 == 1u32
            && 1u32 & 6u32 == 0u32
            && 1u32 & 7u32 == 1u32
            && 1u32 & 8u32 == 0u32
            && 1u32 & 9u32 == 1u32
            && 1u32 & 10u32 == 0u32
            && 1u32 & 11u32 == 1u32
            && 1u32 & 12u32 == 0u32
            && 1u32 & 13u32 == 1u32
            && 1u32 & 14u32 == 0u32
            && 1u32 & 15u32 == 1u32
            && 2u32 & 0u32 == 0u32
            && 2u32 & 1u32 == 0u32
            && 2u32 & 2u32 == 2u32
            && 2u32 & 3u32 == 2u32
            && 2u32 & 4u32 == 0u32
            && 2u32 & 5u32 == 0u32
            && 2u32 & 6u32 == 2u32
            && 2u32 & 7u32 == 2u32
            && 2u32 & 8u32 == 0u32
            && 2u32 & 9u32 == 0u32
            && 2u32 & 10u32 == 2u32
            && 2u32 & 11u32 == 2u32
            && 2u32 & 12u32 == 0u32
            && 2u32 & 13u32 == 0u32
            && 2u32 & 14u32 == 2u32
            && 2u32 & 15u32 == 2u32
            && 3u32 & 0u32 == 0u32
            && 3u32 & 1u32 == 1u32
            && 3u32 & 2u32 == 2u32
            && 3u32 & 3u32 == 3u32
            && 3u32 & 4u32 == 0u32
            && 3u32 & 5u32 == 1u32
            && 3u32 & 6u32 == 2u32
            && 3u32 & 7u32 == 3u32
            && 3u32 & 8u32 == 0u32
            && 3u32 & 9u32 == 1u32
            && 3u32 & 10u32 == 2u32
            && 3u32 & 11u32 == 3u32
            && 3u32 & 12u32 == 0u32
            && 3u32 & 13u32 == 1u32
            && 3u32 & 14u32 == 2u32
            && 3u32 & 15u32 == 3u32
            && 4u32 & 0u32 == 0u32
            && 4u32 & 1u32 == 0u32
            && 4u32 & 2u32 == 0u32
            && 4u32 & 3u32 == 0u32
            && 4u32 & 4u32 == 4u32
            && 4u32 & 5u32 == 4u32
            && 4u32 & 6u32 == 4u32
            && 4u32 & 7u32 == 4u32
            && 4u32 & 8u32 == 0u32
            && 4u32 & 9u32 == 0u32
            && 4u32 & 10u32 == 0u32
            && 4u32 & 11u32 == 0u32
            && 4u32 & 12u32 == 4u32
            && 4u32 & 13u32 == 4u32
            && 4u32 & 14u32 == 4u32
            && 4u32 & 15u32 == 4u32
            && 5u32 & 0u32 == 0u32
            && 5u32 & 1u32 == 1u32
            && 5u32 & 2u32 == 0u32
            && 5u32 & 3u32 == 1u32
            && 5u32 & 4u32 == 4u32
            && 5u32 & 5u32 == 5u32
            && 5u32 & 6u32 == 4u32
            && 5u32 & 7u32 == 5u32
            && 5u32 & 8u32 == 0u32
            && 5u32 & 9u32 == 1u32
            && 5u32 & 10u32 == 0u32
            && 5u32 & 11u32 == 1u32
            && 5u32 & 12u32 == 4u32
            && 5u32 & 13u32 == 5u32
            && 5u32 & 14u32 == 4u32
            && 5u32 & 15u32 == 5u32
            && 6u32 & 0u32 == 0u32
            && 6u32 & 1u32 == 0u32
            && 6u32 & 2u32 == 2u32
            && 6u32 & 3u32 == 2u32
            && 6u32 & 4u32 == 4u32
            && 6u32 & 5u32 == 4u32
            && 6u32 & 6u32 == 6u32
            && 6u32 & 7u32 == 6u32
            && 6u32 & 8u32 == 0u32
            && 6u32 & 9u32 == 0u32
            && 6u32 & 10u32 == 2u32
            && 6u32 & 11u32 == 2u32
            && 6u32 & 12u32 == 4u32
            && 6u32 & 13u32 == 4u32
            && 6u32 & 14u32 == 6u32
            && 6u32 & 15u32 == 6u32
            && 7u32 & 0u32 == 0u32
            && 7u32 & 1u32 == 1u32
            && 7u32 & 2u32 == 2u32
            && 7u32 & 3u32 == 3u32
            && 7u32 & 4u32 == 4u32
            && 7u32 & 5u32 == 5u32
            && 7u32 & 6u32 == 6u32
            && 7u32 & 7u32 == 7u32
            && 7u32 & 8u32 == 0u32
            && 7u32 & 9u32 == 1u32
            && 7u32 & 10u32 == 2u32
            && 7u32 & 11u32 == 3u32
            && 7u32 & 12u32 == 4u32
            && 7u32 & 13u32 == 5u32
            && 7u32 & 14u32 == 6u32
            && 7u32 & 15u32 == 7u32
            && 8u32 & 0u32 == 0u32
            && 8u32 & 1u32 == 0u32
            && 8u32 & 2u32 == 0u32
            && 8u32 & 3u32 == 0u32
            && 8u32 & 4u32 == 0u32
            && 8u32 & 5u32 == 0u32
            && 8u32 & 6u32 == 0u32
            && 8u32 & 7u32 == 0u32
            && 8u32 & 8u32 == 8u32
            && 8u32 & 9u32 == 8u32
            && 8u32 & 10u32 == 8u32
            && 8u32 & 11u32 == 8u32
            && 8u32 & 12u32 == 8u32
            && 8u32 & 13u32 == 8u32
            && 8u32 & 14u32 == 8u32
            && 8u32 & 15u32 == 8u32
            && 9u32 & 0u32 == 0u32
            && 9u32 & 1u32 == 1u32
            && 9u32 & 2u32 == 0u32
            && 9u32 & 3u32 == 1u32
            && 9u32 & 4u32 == 0u32
            && 9u32 & 5u32 == 1u32
            && 9u32 & 6u32 == 0u32
            && 9u32 & 7u32 == 1u32
            && 9u32 & 8u32 == 8u32
            && 9u32 & 9u32 == 9u32
            && 9u32 & 10u32 == 8u32
            && 9u32 & 11u32 == 9u32
            && 9u32 & 12u32 == 8u32
            && 9u32 & 13u32 == 9u32
            && 9u32 & 14u32 == 8u32
            && 9u32 & 15u32 == 9u32
            && 10u32 & 0u32 == 0u32
            && 10u32 & 1u32 == 0u32
            && 10u32 & 2u32 == 2u32
            && 10u32 & 3u32 == 2u32
            && 10u32 & 4u32 == 0u32
            && 10u32 & 5u32 == 0u32
            && 10u32 & 6u32 == 2u32
            && 10u32 & 7u32 == 2u32
            && 10u32 & 8u32 == 8u32
            && 10u32 & 9u32 == 8u32
            && 10u32 & 10u32 == 10u32
            && 10u32 & 11u32 == 10u32
            && 10u32 & 12u32 == 8u32
            && 10u32 & 13u32 == 8u32
            && 10u32 & 14u32 == 10u32
            && 10u32 & 15u32 == 10u32
            && 11u32 & 0u32 == 0u32
            && 11u32 & 1u32 == 1u32
            && 11u32 & 2u32 == 2u32
            && 11u32 & 3u32 == 3u32
            && 11u32 & 4u32 == 0u32
            && 11u32 & 5u32 == 1u32
            && 11u32 & 6u32 == 2u32
            && 11u32 & 7u32 == 3u32
            && 11u32 & 8u32 == 8u32
            && 11u32 & 9u32 == 9u32
            && 11u32 & 10u32 == 10u32
            && 11u32 & 11u32 == 11u32
            && 11u32 & 12u32 == 8u32
            && 11u32 & 13u32 == 9u32
            && 11u32 & 14u32 == 10u32
            && 11u32 & 15u32 == 11u32
            && 12u32 & 0u32 == 0u32
            && 12u32 & 1u32 == 0u32
            && 12u32 & 2u32 == 0u32
            && 12u32 & 3u32 == 0u32
            && 12u32 & 4u32 == 4u32
            && 12u32 & 5u32 == 4u32
            && 12u32 & 6u32 == 4u32
            && 12u32 & 7u32 == 4u32
            && 12u32 & 8u32 == 8u32
            && 12u32 & 9u32 == 8u32
            && 12u32 & 10u32 == 8u32
            && 12u32 & 11u32 == 8u32
            && 12u32 & 12u32 == 12u32
            && 12u32 & 13u32 == 12u32
            && 12u32 & 14u32 == 12u32
            && 12u32 & 15u32 == 12u32
            && 13u32 & 0u32 == 0u32
            && 13u32 & 1u32 == 1u32
            && 13u32 & 2u32 == 0u32
            && 13u32 & 3u32 == 1u32
            && 13u32 & 4u32 == 4u32
            && 13u32 & 5u32 == 5u32
            && 13u32 & 6u32 == 4u32
            && 13u32 & 7u32 == 5u32
            && 13u32 & 8u32 == 8u32
            && 13u32 & 9u32 == 9u32
            && 13u32 & 10u32 == 8u32
            && 13u32 & 11u32 == 9u32
            && 13u32 & 12u32 == 12u32
            && 13u32 & 13u32 == 13u32
            && 13u32 & 14u32 == 12u32
            && 13u32 & 15u32 == 13u32
            && 14u32 & 0u32 == 0u32
            && 14u32 & 1u32 == 0u32
            && 14u32 & 2u32 == 2u32
            && 14u32 & 3u32 == 2u32
            && 14u32 & 4u32 == 4u32
            && 14u32 & 5u32 == 4u32
            && 14u32 & 6u32 == 6u32
            && 14u32 & 7u32 == 6u32
            && 14u32 & 8u32 == 8u32
            && 14u32 & 9u32 == 8u32
            && 14u32 & 10u32 == 10u32
            && 14u32 & 11u32 == 10u32
            && 14u32 & 12u32 == 12u32
            && 14u32 & 13u32 == 12u32
            && 14u32 & 14u32 == 14u32
            && 14u32 & 15u32 == 14u32
            && 15u32 & 0u32 == 0u32
            && 15u32 & 1u32 == 1u32
            && 15u32 & 2u32 == 2u32
            && 15u32 & 3u32 == 3u32
            && 15u32 & 4u32 == 4u32
            && 15u32 & 5u32 == 5u32
            && 15u32 & 6u32 == 6u32
            && 15u32 & 7u32 == 7u32
            && 15u32 & 8u32 == 8u32
            && 15u32 & 9u32 == 9u32
            && 15u32 & 10u32 == 10u32
            && 15u32 & 11u32 == 11u32
            && 15u32 & 12u32 == 12u32
            && 15u32 & 13u32 == 13u32
            && 15u32 & 14u32 == 14u32
            && 15u32 & 15u32 == 15u32) by (bit_vector);
}

/// Every non-constant Hadamard row of a supported length sums to zero, and
/// the constant row sums to the length.
pub proof fn lemma_wht_sign_sum(n: int, u: u32)
    requires
        stack_size_ok(n),
        0 <= u < n,
    ensures
        u == 0 ==> wht_sign_sum(u, n) == n,
        u >= 1 ==> wht_sign_sum(u, n) == 0,
{
    reveal_with_fuel(wht_sign_sum, 18);
    lemma_and_table();
    assert(forall|t: u32| #[trigger] (0u32 & t) == 0) by (bit_vector);
    if n == 1 && u == 0 {
        assert(wht_sign_sum(0u32, 1) == 1);
    }
    if n == 2 && u == 0 {
        assert(wht_sign_sum(0u32, 2) == 2);
    }
    if n == 2 && u == 1 {
        assert(wht_sign_sum(1u32, 2) == 0);
    }
    if n == 4 && u == 0 {
        assert(wht_sign_sum(0u32, 4) == 4);
    }
    if n == 4 && u == 1 {
        assert(wht_sign_sum(1u32, 4) == 0);
    }
    if n == 4 && u == 2 {
        assert(wht_sign_sum(2u32, 4) == 0);
    }
    if n == 4 && u == 3 {
        assert(wht_sign_sum(3u32, 4) == 0);
    }
    if n == 8 && u == 0 {
        assert(wht_sign_sum(0u32, 8) == 8);
    }
    if n == 8 && u == 1 {
        assert(wht_sign_sum(1u32, 8) == 0);
    }
    if n == 8 && u == 2 {
        assert(wht_sign_sum(2u32, 8) == 0);
    }
    if n == 8 && u == 3 {
        assert(wht_sign_sum(3u32, 8) == 0);
    }
    if n == 8 && u == 4 {
        assert(wht_sign_sum(4u32, 8) == 0);
    }
    if n == 8 && u == 5 {
        assert(wht_sign_sum(5u32, 8) == 0);
    }
    if n == 8 && u == 6 {
        assert(wht_sign_sum(6u32, 8) == 0);
    }
    if n == 8 && u == 7 {
        assert(wht_sign_sum(7u32, 8) == 0);
    }
    if n == 16 && u == 0 {
        assert(wht_sign_sum(0u32, 16) == 16);
    }
    if n == 16 && u == 1 {
        assert(wht_sign_sum(1u32, 16) == 0);
    }
    if n == 16 && u == 2 {
        assert(wht_sign_sum(2u32, 16) == 0);
    }
    if n == 16 && u == 3 {
        assert(wht_sign_sum(3u32, 16) == 0);
    }
    if n == 16 && u == 4 {
        assert(wht_sign_sum(4u32, 16) == 0);
    }
    if n == 16 && u == 5 {
        assert(wht_sign_sum(5u32, 16) == 0);
    }
    if n == 16 && u == 6 {
        assert(wht_sign_sum(6u32, 16) == 0);
    }
    if n == 16 && u == 7 {
        assert(wht_sign_sum(7u32, 16) == 0);
    }
    if n == 16 && u == 8 {
        assert(wht_sign_sum(8u32, 16) == 0);
    }
    if n == 16 && u == 9 {
        assert(wht_sign_sum(9u32, 16) == 0);
    }
    if n == 16 && u == 10 {
        assert(wht_sign_sum(10u32, 16) == 0);
    }
    if n == 16 && u == 11 {
        assert(wht_sign_sum(11u32, 16) == 0);
    }
    if n == 16 && u == 12 {
        assert(wht_sign_sum(12u32, 16) == 0);
    }
    if n == 16 && u == 13 {
        assert(wht_sign_sum(13u32, 16) == 0);
    }
    if n == 16 && u == 14 {
        assert(wht_sign_sum(14u32, 16) == 0);
    }
    if n == 16 && u == 15 {
        assert(wht_sign_sum(15u32, 16) == 0);
    }
}

/// The first Hadamard column is all ones.
pub proof fn lemma_wht_sign_first(u: u32)
    ensures
        wht_sign(u, 0) == 1,
{
    assert(u & 0u32 == 0u32) by (bit_vector);
}

/// The signed sum over a constant column factors into the value times the
/// sign sum.
pub proof fn lemma_wht_dot_const(x: Seq<i64>, v: i64, u: u32, cnt: int)
    requires
        0 <= cnt <= x.len(),
        forall|i: int| 0 <= i < x.len() ==> x[i] == v,
    ensures
        wht_dot(x, u, cnt) == v * wht_sign_sum(u, cnt),
    decreases cnt,
{
    if cnt <= 0 {
        assert(v as int * 0 == 0) by (nonlinear_arith);
    } else {
        lemma_wht_dot_const(x, v, u, cnt - 1);
        let s = wht_sign_sum(u, cnt - 1);
        let c = wht_sign(u, (cnt - 1) as u32);
        assert(v * s + v * c == v * (s + c)) by (nonlinear_arith);
    }
}

/// The signed sum over a column whose only non-zero entry is the first one
/// reduces to that entry.
pub proof fn lemma_wht_dot_first(x: Seq<i64>, d: i64, u: u32, cnt: int)
    requires
        1 <= cnt <= x.len(),
        x[0] == d,
        forall|i: int| 1 <= i < x.len() ==> x[i] == 0,
    ensures
        wht_dot(x, u, cnt) == d as int,
    decreases cnt,
{
    lemma_wht_sign_first(u);
    if cnt == 1 {
        assert(wht_dot(x, u, 1) == wht_dot(x, u, 0) + x[0] * wht_sign(u, 0));
    } else {
        lemma_wht_dot_first(x, d, u, cnt - 1);
        assert(x[cnt - 1] == 0);
        assert(wht_dot(x, u, cnt) == wht_dot(x, u, cnt - 1) + x[cnt - 1] * wht_sign(
            u,
            (cnt - 1) as u32,
        ));
        assert(0 * wht_sign(u, (cnt - 1) as u32) == 0) by (nonlinear_arith);
    }
}

} // verus!