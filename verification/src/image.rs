//! Planar image buffers with 8.8 fixed-point samples.

use vstd::prelude::*;

verus! {

/// Largest sample value a plane may hold: 255 in 8.8 fixed point.
pub const PIX_MAX_Q8: i64 = 65280;

/// Largest plane side the pipeline accepts.
pub const MAX_SIDE: usize = 0x2000;

/// One image channel, stored row-major.
#[derive(Debug)]
pub struct Plane {
    /// Samples, 8.8 fixed point, row-major.
    pub data: Vec<i64>,
    /// Width in pixels.
    pub width: usize,
    /// Height in pixels.
    pub height: usize,
}

impl Plane {
    /// Shape and range invariant of a plane.
    pub open spec fn wf(self) -> bool {
        &&& self.width <= MAX_SIDE
        &&& self.height <= MAX_SIDE
        &&& self.data@.len() == self.width as int * self.height as int
        &&& forall|i: int|
            0 <= i < self.data@.len() ==> 0 <= #[trigger] self.data@[i] <= PIX_MAX_Q8
    }

    /// The sample at `(x, y)`.
    pub open spec fn at(self, x: int, y: int) -> int {
        self.data@[y * self.width as int + x] as int
    }

    /// Linear index of `(x, y)`, with the overflow-free bound.
    pub proof fn lemma_index(self, x: int, y: int)
        requires
            self.wf(),
            0 <= x < self.width,
            0 <= y < self.height,
        ensures
            0 <= y * self.width as int + x < self.data@.len(),
    {
        let w = self.width as int;
        let h = self.height as int;
        assert(y * w + x < h * w) by (nonlinear_arith)
            requires
                0 <= x < w,
                0 <= y < h,
        ;
        assert(y * w >= 0) by (nonlinear_arith)
            requires
                y >= 0,
                w >= 0,
        ;
        assert(h * w == w * h) by (nonlinear_arith);
    }

    /// A constant plane.
    pub fn new_filled(width: usize, height: usize, fill: i64) -> (r: Plane)
        requires
            width <= MAX_SIDE,
            height <= MAX_SIDE,
            0 <= fill <= PIX_MAX_Q8,
        ensures
            r.wf(),
            r.width == width,
            r.height == height,
            forall|i: int| 0 <= i < r.data@.len() ==> r.data@[i] == fill,
    {
        proof {
            crate::fixed::lemma_mul_le(width as int, height as int, 0x2000, 0x2000);
        }
        let mut data: Vec<i64> = Vec::new();
        let total = width * height;
        let mut i: usize = 0;
        while i < total
            invariant
                total == width * height,
                i <= total,
                data@.len() == i,
                0 <= fill <= PIX_MAX_Q8,
                forall|k: int| 0 <= k < i ==> data@[k] == fill,
            decreases total - i,
        {
            data.push(fill);
            i = i + 1;
        }
        Plane { data, width, height }
    }

    /// Width and height.
    pub fn dimensions(&self) -> (r: (usize, usize))
        ensures
            r == (self.width, self.height),
    {
        (self.width, self.height)
    }

    /// Read the sample at `(x, y)`.
    pub fn get(&self, x: usize, y: usize) -> (r: i64)
        requires
            self.wf(),
            x < self.width,
            y < self.height,
        ensures
            r as int == self.at(x as int, y as int),
            0 <= r <= PIX_MAX_Q8,
    {
        let n = self.data.len();
        proof {
            self.lemma_index(x as int, y as int);
        }
        self.data[y * self.width + x]
    }

    /// Write the sample at `(x, y)`.
    pub fn set(&mut self, x: usize, y: usize, v: i64)
        requires
            old(self).wf(),
            x < old(self).width,
            y < old(self).height,
            0 <= v <= PIX_MAX_Q8,
        ensures
            final(self).wf(),
            final(self).width == old(self).width,
            final(self).height == old(self).height,
            final(self).at(x as int, y as int) == v,
            forall|xx: int, yy: int|
                0 <= xx < old(self).width && 0 <= yy < old(self).height && !(xx == x && yy == y)
                    ==> final(self).at(xx, yy) == old(self).at(xx, yy),
    {
        let n = self.data.len();
        proof {
            self.lemma_index(x as int, y as int);
        }
        let idx = y * self.width + x;
        self.data.set(idx, v);
        proof {
            assert forall|xx: int, yy: int|
                0 <= xx < old(self).width && 0 <= yy < old(self).height && !(xx == x as int && yy
                    == y as int) implies final(self).at(xx, yy) == old(self).at(xx, yy) by {
                old(self).lemma_index(xx, yy);
                crate::fixed::lemma_distinct_index(
                    xx,
                    yy,
                    x as int,
                    y as int,
                    old(self).width as int,
                );
            }
        }
    }

    /// Build a plane from 8-bit samples, scaling into 8.8 fixed point.
    pub fn from_bytes(bytes: &Vec<u8>, width: usize, height: usize) -> (r: Option<Plane>)
        requires
            width <= MAX_SIDE,
            height <= MAX_SIDE,
        ensures
            match r {
                Some(p) => {
                    &&& bytes@.len() == width as int * height as int
                    &&& p.wf()
                    &&& p.width == width
                    &&& p.height == height
                    &&& forall|i: int|
                        0 <= i < bytes@.len() ==> p.data@[i] as int == 256 * bytes@[i] as int
                },
                None => bytes@.len() != width as int * height as int,
            },
    {
        proof {
            crate::fixed::lemma_mul_le(width as int, height as int, 0x2000, 0x2000);
        }
        let total = width * height;
        if bytes.len() != total {
            return None;
        }
        let mut data: Vec<i64> = Vec::new();
        let mut i: usize = 0;
        while i < total
            invariant
                total == width * height,
                bytes@.len() == total,
                i <= total,
                data@.len() == i,
                forall|k: int| 0 <= k < i ==> data@[k] as int == 256 * bytes@[k] as int,
                forall|k: int| 0 <= k < i ==> 0 <= #[trigger] data@[k] <= PIX_MAX_Q8,
            decreases total - i,
        {
            data.push((bytes[i] as i64) * 256);
            i = i + 1;
        }
        Some(Plane { data, width, height })
    }

    /// One 8.8 sample rounded back to an 8-bit value.
    pub open spec fn byte_of(v: int) -> int {
        crate::fixed::clamp_spec((v + 128) / 256, 0, 255)
    }

    /// Render the plane as 8-bit samples, rounding to nearest.
    pub fn to_bytes(&self) -> (r: Vec<u8>)
        requires
            self.wf(),
        ensures
            r@.len() == self.data@.len(),
            forall|i: int| 0 <= i < r@.len() ==> r@[i] as int == Plane::byte_of(self.data@[i] as int),
    {
        let n = self.data.len();
        let mut out: Vec<u8> = Vec::new();
        let mut i: usize = 0;
        while i < n
            invariant
                self.wf(),
                n == self.data@.len(),
                i <= n,
                out@.len() == i,
                forall|k: int|
                    0 <= k < i ==> out@[k] as int == Plane::byte_of(self.data@[k] as int),
            decreases n - i,
        {
            let v = self.data[i];
            let q = match (v + 128).checked_div_euclid(256) {
                Some(q) => q,
                None => 0,  // unreachable: the divisor is positive and v is bounded
            };
            let b = if q < 0 {
                0u8
            } else if q > 255 {
                255u8
            } else {
                q as u8
            };
            out.push(b);
            i = i + 1;
        }
        out
    }
}

/// A planar image in the working color representation: one luminance plane
/// followed by two chrominance planes, all with the same dimensions.
#[derive(Debug)]
pub struct Bm3dImage {
    /// Channel planes, in Y, Cb, Cr order.
    pub planes: Vec<Plane>,
    /// Width in pixels.
    pub width: usize,
    /// Height in pixels.
    pub height: usize,
}

impl Bm3dImage {
    /// Shape invariant of the image.
    pub open spec fn wf(self) -> bool {
        &&& self.planes@.len() == 3
        &&& forall|c: int|
            0 <= c < 3 ==> (#[trigger] self.planes@[c]).wf() && self.planes@[c].width == self.width
                && self.planes@[c].height == self.height
    }

    /// Assemble an image from its three channel planes.
    pub fn new(y: Plane, cb: Plane, cr: Plane) -> (r: Option<Bm3dImage>)
        requires
            y.wf(),
            cb.wf(),
            cr.wf(),
        ensures
            match r {
                Some(img) => {
                    &&& img.wf()
                    &&& img.width == y.width
                    &&& img.height == y.height
                    &&& img.planes@[0] == y
                    &&& img.planes@[1] == cb
                    &&& img.planes@[2] == cr
                },
                None => !(cb.width == y.width && cb.height == y.height && cr.width == y.width
                    && cr.height == y.height),
            },
    {
        if cb.width != y.width || cb.height != y.height || cr.width != y.width || cr.height
            != y.height {
            return None;
        }
        let width = y.width;
        let height = y.height;
        let mut planes: Vec<Plane> = Vec::new();
        planes.push(y);
        planes.push(cb);
        planes.push(cr);
        Some(Bm3dImage { planes, width, height })
    }

    /// Width and height.
    pub fn dimensions(&self) -> (r: (usize, usize))
        ensures
            r == (self.width, self.height),
    {
        (self.width, self.height)
    }
}

} // verus!
