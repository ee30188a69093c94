//! Group forming: stacking matched patches into 3-D tensors, and the grid
//! decomposition of a whole image into patches.

use vstd::prelude::*;

use crate::error::ImageProcessingError;
use crate::fixed::{all_bounded, lemma_row_major_lt, VAL_LIMIT};
use crate::image::Plane;
use crate::matching::Patch;
use crate::params::Bm3dParams;

verus! {

/// `data` holds the clipped `cw` by `ch` window of `p` anchored at `(x, y)`.
pub open spec fn is_window_of(
    data: Seq<i64>,
    p: Plane,
    x: int,
    y: int,
    cw: int,
    ch: int,
) -> bool {
    &&& data.len() == ch * cw
    &&& forall|r: int, c: int|
        0 <= r < ch && 0 <= c < cw ==> #[trigger] data[r * cw + c] as int == p.at(x + c, y + r)
}

/// Stack the flattened patches of a matched group into square blocks, in
/// group order.  Entry `k` of the result is the `b` by `b` block of patch
/// `k`, with `block[r][c]` equal to `data[r * b + c]`.
pub fn form_group(patches: &Vec<Patch>, b: usize) -> (g: Vec<Vec<Vec<i64>>>)
    requires
        crate::dct::dct_size_ok(b as int),
        forall|k: int| 0 <= k < patches@.len() ==> (#[trigger] patches@[k]).data@.len() == b * b,
        forall|k: int|
            0 <= k < patches@.len() ==> all_bounded(
                (#[trigger] patches@[k]).data@,
                VAL_LIMIT as int,
            ),
    ensures
        g@.len() == patches@.len(),
        crate::haar::group_wf(g.deep_view(), patches@.len() as int, b as int),
        forall|k: int, r: int, c: int|
            0 <= k < g@.len() && 0 <= r < b && 0 <= c < b ==> g@[k]@[r]@[c]
                == patches@[k].data@[r * b + c],
{
    let n = patches.len();
    let mut g: Vec<Vec<Vec<i64>>> = Vec::new();
    let mut k: usize = 0;
    while k < n
        invariant
            crate::dct::dct_size_ok(b as int),
            n == patches@.len(),
            forall|kk: int| 0 <= kk < n ==> (#[trigger] patches@[kk]).data@.len() == b * b,
            forall|kk: int|
                0 <= kk < n ==> all_bounded((#[trigger] patches@[kk]).data@, VAL_LIMIT as int),
            k <= n,
            g@.len() == k,
            forall|kk: int| 0 <= kk < k ==> (#[trigger] g@[kk])@.len() == b,
            forall|kk: int, r: int|
                0 <= kk < k && 0 <= r < b ==> (#[trigger] g@[kk]@[r])@.len() == b,
            forall|kk: int, r: int|
                0 <= kk < k && 0 <= r < b ==> all_bounded(
                    (#[trigger] g@[kk]@[r])@,
                    VAL_LIMIT as int,
                ),
            forall|kk: int, r: int, c: int|
                0 <= kk < k && 0 <= r < b && 0 <= c < b ==> g@[kk]@[r]@[c] == patches@[kk].data@[r
                    * b + c],
        decreases n - k,
    {
        let mut block: Vec<Vec<i64>> = Vec::new();
        let mut r: usize = 0;
        while r < b
            invariant
                crate::dct::dct_size_ok(b as int),
                n == patches@.len(),
                k < n,
                patches@[k as int].data@.len() == b * b,
                all_bounded(patches@[k as int].data@, VAL_LIMIT as int),
                r <= b,
                block@.len() == r,
                forall|rr: int| 0 <= rr < r ==> (#[trigger] block@[rr])@.len() == b,
                forall|rr: int|
                    0 <= rr < r ==> all_bounded((#[trigger] block@[rr])@, VAL_LIMIT as int),
                forall|rr: int, c: int|
                    0 <= rr < r && 0 <= c < b ==> block@[rr]@[c] == patches@[k as int].data@[rr * b
                        + c],
            decreases b - r,
        {
            let mut row: Vec<i64> = Vec::new();
            let mut c: usize = 0;
            while c < b
                invariant
                    crate::dct::dct_size_ok(b as int),
                    n == patches@.len(),
                    k < n,
                    patches@[k as int].data@.len() == b * b,
                    all_bounded(patches@[k as int].data@, VAL_LIMIT as int),
                    r < b,
                    c <= b,
                    row@.len() == c,
                    all_bounded(row@, VAL_LIMIT as int),
                    forall|cc: int|
                        0 <= cc < c ==> row@[cc] == patches@[k as int].data@[r * b + cc],
                decreases b - c,
            {
                proof {
                    lemma_row_major_lt(r as int, c as int, b as int, b as int);
                    crate::fixed::lemma_mul_le(b as int, b as int, b as int, b as int);
                }
                row.push(patches[k].data[r * b + c]);
                c = c + 1;
            }
            block.push(row);
            r = r + 1;
        }
        g.push(block);
        k = k + 1;
    }
    proof {
        assert forall|kk: int|
            0 <= kk < n implies crate::dct::block_wf((#[trigger] g.deep_view()[kk]), b as int) by {
            assert(g.deep_view()[kk] =~= g@[kk].deep_view());
            assert forall|r: int|
                0 <= r < b implies (#[trigger] g@[kk].deep_view()[r]).len() == b && all_bounded(
                g@[kk].deep_view()[r],
                VAL_LIMIT as int,
            ) by {
                assert(g@[kk].deep_view()[r] =~= g@[kk]@[r]@);
            }
        }
    }
    g
}

/// Cut an image channel into patches on a quarter-block stride grid, row by
/// row; patches that straddle the right or bottom border are clipped.
pub fn divide_image(img: &crate::image::Bm3dImage, params: &Bm3dParams) -> (res: Result<
    Vec<Patch>,
    ImageProcessingError,
>)
    requires
        img.wf(),
        params.block_size == 4 || params.block_size == 8,
    ensures
        (img.width == 0 || img.height == 0) <==> res is Err,
        res matches Ok(v) ==> ({
            let st = params.block_size as int / 4;
            let nx = (img.width as int + st - 1) / st;
            let ny = (img.height as int + st - 1) / st;
            &&& v@.len() == ny * nx
            &&& forall|i: int, j: int|
                0 <= i < ny && 0 <= j < nx ==> ({
                    let x = j * st;
                    let y = i * st;
                    let cw = if x + params.block_size <= img.width {
                        params.block_size as int
                    } else {
                        img.width - x
                    };
                    let ch = if y + params.block_size <= img.height {
                        params.block_size as int
                    } else {
                        img.height - y
                    };
                    (#[trigger] v@[i * nx + j]).top_left.0 as int == x && v@[i * nx
                        + j].top_left.1 as int == y && is_window_of(
                        v@[i * nx + j].data@,
                        img.planes@[0],
                        x,
                        y,
                        cw,
                        ch,
                    )
                })
        }),
{
    if img.width == 0 || img.height == 0 {
        return Err(ImageProcessingError::InvalidParameter("Invalid image size"));
    }
    let plane = &img.planes[0];
    let b = params.block_size;
    let st = b / 4;
    let w = img.width;
    let h = img.height;
    let nx = (w + st - 1) / st;
    let ny = (h + st - 1) / st;
    proof {
        if st == 1 {
            assert(nx == w);
            assert(ny == h);
        } else {
            assert(st == 2);
            assert(nx <= w);
            assert(ny <= h);
        }
        crate::fixed::lemma_mul_le(ny as int, nx as int, 0x2000, 0x2000);
    }
    let mut out: Vec<Patch> = Vec::new();
    let mut i: usize = 0;
    while i < ny
        invariant
            img.wf(),
            plane == img.planes@[0],
            b == params.block_size,
            b == 4 || b == 8,
            st == b / 4,
            st == 1 || st == 2,
            w == img.width,
            h == img.height,
            0 < w,
            0 < h,
            nx as int == (w as int + st as int - 1) / (st as int),
            ny as int == (h as int + st as int - 1) / (st as int),
            nx <= 0x2000,
            ny <= 0x2000,
            i <= ny,
            out@.len() == i * nx,
            forall|ii: int, jj: int|
                0 <= ii < i && 0 <= jj < nx ==> divide_entry_ok(
                    #[trigger] out@[ii * nx + jj],
                    img.planes@[0],
                    ii,
                    jj,
                    st as int,
                    b as int,
                    w as int,
                    h as int,
                ),
        decreases ny - i,
    {
        let mut j: usize = 0;
        while j < nx
            invariant
                img.wf(),
                plane == img.planes@[0],
                b == params.block_size,
                b == 4 || b == 8,
                st == b / 4,
                st == 1 || st == 2,
                w == img.width,
                h == img.height,
                0 < w,
                0 < h,
                nx as int == (w as int + st as int - 1) / (st as int),
                ny as int == (h as int + st as int - 1) / (st as int),
                nx <= 0x2000,
                ny <= 0x2000,
                i < ny,
                j <= nx,
                out@.len() == i * nx + j,
                forall|ii: int, jj: int|
                    0 <= ii < i && 0 <= jj < nx ==> divide_entry_ok(
                        #[trigger] out@[ii * nx + jj],
                        img.planes@[0],
                        ii,
                        jj,
                        st as int,
                        b as int,
                        w as int,
                        h as int,
                    ),
                forall|jj: int|
                    0 <= jj < j ==> divide_entry_ok(
                        #[trigger] out@[i * nx + jj],
                        img.planes@[0],
                        i as int,
                        jj,
                        st as int,
                        b as int,
                        w as int,
                        h as int,
                    ),
            decreases nx - j,
        {
            let x = j * st;
            let y = i * st;
            proof {
                lemma_grid_anchor_in(i as int, j as int, st as int, w as int, h as int, nx as int, ny as int);
            }
            let cw = if x + b <= w {
                b
            } else {
                w - x
            };
            let ch = if y + b <= h {
                b
            } else {
                h - y
            };
            let win = extract_window(plane, x, y, cw, ch);
            out.push(Patch { top_left: (x, y), data: win });
            proof {
                assert(i as int * nx as int + j as int + 1 <= ny as int * nx as int) by (nonlinear_arith)
                    requires
                        0 <= (i as int) < (ny as int),
                        0 <= (j as int) < (nx as int),
                ;
                assert forall|ii: int, jj: int|
                    0 <= ii < i && 0 <= jj < nx implies divide_entry_ok(
                    #[trigger] out@[ii * nx + jj],
                    img.planes@[0],
                    ii,
                    jj,
                    st as int,
                    b as int,
                    w as int,
                    h as int,
                ) by {
                    lemma_row_major_lt(ii, jj, i as int, nx as int);
                }
            }
            j = j + 1;
        }
        proof {
            assert(i as int * nx as int + nx as int == (i as int + 1) * nx as int)
                by (nonlinear_arith);
            assert forall|ii: int, jj: int|
                0 <= ii < i + 1 && 0 <= jj < nx implies divide_entry_ok(
                #[trigger] out@[ii * nx + jj],
                img.planes@[0],
                ii,
                jj,
                st as int,
                b as int,
                w as int,
                h as int,
            ) by {
                if ii == i as int {
                    assert(divide_entry_ok(
                        out@[i as int * nx + jj],
                        img.planes@[0],
                        i as int,
                        jj,
                        st as int,
                        b as int,
                        w as int,
                        h as int,
                    ));
                }
            }
        }
        i = i + 1;
    }
    Ok(out)
}

/// One entry of the grid decomposition is the clipped window at its anchor.
pub open spec fn divide_entry_ok(
    p: Patch,
    plane: Plane,
    i: int,
    j: int,
    st: int,
    b: int,
    w: int,
    h: int,
) -> bool {
    let x = j * st;
    let y = i * st;
    let cw = if x + b <= w {
        b
    } else {
        w - x
    };
    let ch = if y + b <= h {
        b
    } else {
        h - y
    };
    &&& p.top_left.0 as int == x
    &&& p.top_left.1 as int == y
    &&& is_window_of(p.data@, plane, x, y, cw, ch)
}

/// A grid anchor lies inside the image.
proof fn lemma_grid_anchor_in(i: int, j: int, st: int, w: int, h: int, nx: int, ny: int)
    requires
        1 <= st,
        0 < w,
        0 < h,
        nx == (w + st - 1) / st,
        ny == (h + st - 1) / st,
        0 <= i < ny,
        0 <= j < nx,
    ensures
        0 <= j * st < w,
        0 <= i * st < h,
{
    assert(j * st < w) by (nonlinear_arith)
        requires
            1 <= st,
            0 < w,
            0 <= j < (w + st - 1) / st,
    ;
    assert(i * st < h) by (nonlinear_arith)
        requires
            1 <= st,
            0 < h,
            0 <= i < (h + st - 1) / st,
    ;
    assert(j * st >= 0) by (nonlinear_arith)
        requires
            0 <= j,
            0 <= st,
    ;
    assert(i * st >= 0) by (nonlinear_arith)
        requires
            0 <= i,
            0 <= st,
    ;
}

/// Extract the clipped `cw` by `ch` window anchored at `(x, y)`.
fn extract_window(plane: &Plane, x: usize, y: usize, cw: usize, ch: usize) -> (data: Vec<i64>)
    requires
        plane.wf(),
        x + cw <= plane.width,
        y + ch <= plane.height,
    ensures
        is_window_of(data@, *plane, x as int, y as int, cw as int, ch as int),
{
    let mut data: Vec<i64> = Vec::new();
    let mut r: usize = 0;
    while r < ch
        invariant
            plane.wf(),
            x + cw <= plane.width,
            y + ch <= plane.height,
            r <= ch,
            data@.len() == r * cw,
            forall|rr: int, cc: int|
                0 <= rr < r && 0 <= cc < cw ==> #[trigger] data@[rr * cw + cc] as int == plane.at(
                    x + cc,
                    y + rr,
                ),
        decreases ch - r,
    {
        let mut c: usize = 0;
        while c < cw
            invariant
                plane.wf(),
                x + cw <= plane.width,
                y + ch <= plane.height,
                r < ch,
                c <= cw,
                data@.len() == r * cw + c,
                forall|rr: int, cc: int|
                    0 <= rr < r && 0 <= cc < cw ==> #[trigger] data@[rr * cw + cc] as int
                        == plane.at(x + cc, y + rr),
                forall|cc: int|
                    0 <= cc < c ==> #[trigger] data@[r * cw + cc] as int == plane.at(
                        x + cc,
                        y + r as int,
                    ),
            decreases cw - c,
        {
            data.push(plane.get(x + c, y + r));
            proof {
                assert forall|rr: int, cc: int|
                    0 <= rr < r && 0 <= cc < cw implies #[trigger] data@[rr * cw + cc] as int
                    == plane.at(x + cc, y + rr) by {
                    lemma_row_major_lt(rr, cc, r as int, cw as int);
                }
            }
            c = c + 1;
        }
        proof {
            assert(r as int * cw as int + cw as int == (r as int + 1) * cw as int)
                by (nonlinear_arith);
            assert forall|rr: int, cc: int|
                0 <= rr < r as int + 1 && 0 <= cc < cw implies #[trigger] data@[rr * cw + cc] as int
                == plane.at(x + cc, y + rr) by {
                if rr == r as int {
                    assert(data@[r as int * cw + cc] as int == plane.at(x + cc, y + r as int));
                }
            }
        }
        r = r + 1;
    }
    data
}

} // verus!
