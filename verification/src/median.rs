//! Median-filter denoising of raw interleaved sample buffers.
//!
//! The filtering itself is done by `imageproc::filter::median_filter`; this
//! module checks the buffer shape, dispatches on the color layout, and
//! returns the filtered bytes.

use vstd::prelude::*;

verus! {

/// Color layouts of the raw buffer.  The bit depths beyond 8 are accepted
/// and handled through their 8-bit working form.
#[derive(Debug, Clone, Copy, PartialEq, Eq, Structural)]
pub enum ColorSpace {
    /// 8-bit RGB.
    Rgb8,
    /// 16-bit RGB.
    Rgb16,
    /// 32-bit RGB.
    Rgb32,
    /// 8-bit RGB with alpha.
    Rgba8,
    /// 16-bit RGB with alpha.
    Rgba16,
    /// 32-bit RGB with alpha.
    Rgba32,
    /// 8-bit grayscale.
    Luma8,
    /// 16-bit grayscale.
    Luma16,
    /// 32-bit grayscale.
    Luma32,
    /// 8-bit grayscale with alpha.
    LumaAlpha8,
    /// 16-bit grayscale with alpha.
    LumaAlpha16,
    /// 32-bit grayscale with alpha.
    LumaAlpha32,
}

/// Number of interleaved channels of a layout's 8-bit working form.
pub open spec fn channels_spec(c: ColorSpace) -> int {
    match c {
        ColorSpace::Rgb8 | ColorSpace::Rgb16 | ColorSpace::Rgb32 => 3,
        ColorSpace::Rgba8 | ColorSpace::Rgba16 | ColorSpace::Rgba32 => 4,
        ColorSpace::Luma8 | ColorSpace::Luma16 | ColorSpace::Luma32 => 1,
        ColorSpace::LumaAlpha8 | ColorSpace::LumaAlpha16 | ColorSpace::LumaAlpha32 => 2,
    }
}

/// Executable form of [`channels_spec`].
pub fn channels(c: ColorSpace) -> (r: u32)
    ensures
        r as int == channels_spec(c),
{
    match c {
        ColorSpace::Rgb8 | ColorSpace::Rgb16 | ColorSpace::Rgb32 => 3,
        ColorSpace::Rgba8 | ColorSpace::Rgba16 | ColorSpace::Rgba32 => 4,
        ColorSpace::Luma8 | ColorSpace::Luma16 | ColorSpace::Luma32 => 1,
        ColorSpace::LumaAlpha8 | ColorSpace::LumaAlpha16 | ColorSpace::LumaAlpha32 => 2,
    }
}

/// The bytes of the median-filtered RGB image; determined by the input
/// bytes, the dimensions and the kernel radius alone.
pub uninterp spec fn median_filtered_rgb8(data: Seq<u8>, w: int, h: int, k: int) -> Seq<u8>;

/// The bytes of the median-filtered RGBA image.
pub uninterp spec fn median_filtered_rgba8(data: Seq<u8>, w: int, h: int, k: int) -> Seq<u8>;

/// The bytes of the median-filtered grayscale image.
pub uninterp spec fn median_filtered_luma8(data: Seq<u8>, w: int, h: int, k: int) -> Seq<u8>;

/// The bytes of the median-filtered grayscale-with-alpha image.
pub uninterp spec fn median_filtered_luma_alpha8(data: Seq<u8>, w: int, h: int, k: int) -> Seq<u8>;

/// Relies on `imageproc::filter::median_filter` over `image::Rgb<u8>`: the
/// result has the input's dimensions and depends on its arguments alone.
/// The radius bounds keep clear of the filter's panics: it rejects
/// `side + radius` above `i32::MAX` explicitly, it computes the kernel area
/// `(2 * radius + 1)^2` in `u32`, and it doubles histogram counts that can
/// reach that area, so twice the squared window side must fit in `u32` --
/// a window side of at most `2^15` keeps both computations in range.
#[verifier::external_body]
fn median_rgb8(data: &Vec<u8>, width: u32, height: u32, kernel: u32) -> (r: Vec<u8>)
    requires
        data@.len() == 3 * (width as int) * (height as int),
        width + kernel <= 0x7fff_ffff,
        height + kernel <= 0x7fff_ffff,
        2 * kernel + 1 <= 0x8000,
    ensures
        r@ == median_filtered_rgb8(data@, width as int, height as int, kernel as int),
        r@.len() == data@.len(),
{
    let img: image::RgbImage = image::ImageBuffer::from_raw(width, height, data.clone()).unwrap();
    imageproc::filter::median_filter(&img, kernel, kernel).into_raw()
}

/// Relies on `imageproc::filter::median_filter` over `image::Rgba<u8>`.
#[verifier::external_body]
fn median_rgba8(data: &Vec<u8>, width: u32, height: u32, kernel: u32) -> (r: Vec<u8>)
    requires
        data@.len() == 4 * (width as int) * (height as int),
        width + kernel <= 0x7fff_ffff,
        height + kernel <= 0x7fff_ffff,
        2 * kernel + 1 <= 0x8000,
    ensures
        r@ == median_filtered_rgba8(data@, width as int, height as int, kernel as int),
        r@.len() == data@.len(),
{
    let img: image::RgbaImage = image::ImageBuffer::from_raw(width, height, data.clone()).unwrap();
    imageproc::filter::median_filter(&img, kernel, kernel).into_raw()
}

/// Relies on `imageproc::filter::median_filter` over `image::Luma<u8>`.
#[verifier::external_body]
fn median_luma8(data: &Vec<u8>, width: u32, height: u32, kernel: u32) -> (r: Vec<u8>)
    requires
        data@.len() == 1 * (width as int) * (height as int),
        width + kernel <= 0x7fff_ffff,
        height + kernel <= 0x7fff_ffff,
        2 * kernel + 1 <= 0x8000,
    ensures
        r@ == median_filtered_luma8(data@, width as int, height as int, kernel as int),
        r@.len() == data@.len(),
{
    let img: image::GrayImage = image::ImageBuffer::from_raw(width, height, data.clone()).unwrap();
    imageproc::filter::median_filter(&img, kernel, kernel).into_raw()
}

/// Relies on `imageproc::filter::median_filter` over `image::LumaA<u8>`.
#[verifier::external_body]
fn median_luma_alpha8(data: &Vec<u8>, width: u32, height: u32, kernel: u32) -> (r: Vec<u8>)
    requires
        data@.len() == 2 * (width as int) * (height as int),
        width + kernel <= 0x7fff_ffff,
        height + kernel <= 0x7fff_ffff,
        2 * kernel + 1 <= 0x8000,
    ensures
        r@ == median_filtered_luma_alpha8(data@, width as int, height as int, kernel as int),
        r@.len() == data@.len(),
{
    let img: image::GrayAlphaImage = image::ImageBuffer::from_raw(
        width,
        height,
        data.clone(),
    ).unwrap();
    imageproc::filter::median_filter(&img, kernel, kernel).into_raw()
}

/// The expected result of [`denoise`] for an accepted buffer.
pub open spec fn median_denoised(data: Seq<u8>, w: int, h: int, k: int, c: ColorSpace) -> Seq<u8> {
    match c {
        ColorSpace::Rgb8 | ColorSpace::Rgb16 | ColorSpace::Rgb32 => median_filtered_rgb8(
            data,
            w,
            h,
            k,
        ),
        ColorSpace::Rgba8 | ColorSpace::Rgba16 | ColorSpace::Rgba32 => median_filtered_rgba8(
            data,
            w,
            h,
            k,
        ),
        ColorSpace::Luma8 | ColorSpace::Luma16 | ColorSpace::Luma32 => median_filtered_luma8(
            data,
            w,
            h,
            k,
        ),
        ColorSpace::LumaAlpha8 | ColorSpace::LumaAlpha16 | ColorSpace::LumaAlpha32
            => median_filtered_luma_alpha8(data, w, h, k),
    }
}

/// Median-filter a raw interleaved buffer.  The buffer is rejected exactly
/// when its length does not match the dimensions and layout, or when the
/// dimensions or kernel radius are out of range.
pub fn denoise(
    data: &Vec<u8>,
    width: u32,
    height: u32,
    kernel: u32,
    color_space: ColorSpace,
) -> (res: Result<Vec<u8>, &'static str>)
    ensures
        res is Ok <==> (data@.len() == channels_spec(color_space) * (width as int) * (
        height as int) && width + kernel <= 0x7fff_ffff && height + kernel <= 0x7fff_ffff && 2
            * kernel + 1 <= 0x8000),
        res matches Ok(v) ==> {
            &&& v@ == median_denoised(
                data@,
                width as int,
                height as int,
                kernel as int,
                color_space,
            )
            &&& v@.len() == data@.len()
        },
{
    let ch = channels(color_space);
    proof {
        crate::fixed::lemma_mul_le(ch as int, width as int, 4, 0x1_0000_0000);
        crate::fixed::lemma_mul_le(
            (ch as int) * (width as int),
            height as int,
            0x4_0000_0000,
            0x1_0000_0000,
        );
    }
    let expected = (ch as u128) * (width as u128) * (height as u128);
    if (data.len() as u128) != expected {
        return Err("buffer length does not match the dimensions");
    }
    if kernel > 0x3fff || width > 0x7fff_ffff - kernel || height > 0x7fff_ffff - kernel {
        return Err("dimensions or kernel radius out of range");
    }
    proof {
        assert((ch as int) * (width as int) * (height as int) == channels_spec(color_space) * (
        width as int) * (height as int));
    }
    let out = match color_space {
        ColorSpace::Rgb8 | ColorSpace::Rgb16 | ColorSpace::Rgb32 => median_rgb8(
            data,
            width,
            height,
            kernel,
        ),
        ColorSpace::Rgba8 | ColorSpace::Rgba16 | ColorSpace::Rgba32 => median_rgba8(
            data,
            width,
            height,
            kernel,
        ),
        ColorSpace::Luma8 | ColorSpace::Luma16 | ColorSpace::Luma32 => median_luma8(
            data,
            width,
            height,
            kernel,
        ),
        ColorSpace::LumaAlpha8 | ColorSpace::LumaAlpha16 | ColorSpace::LumaAlpha32
            => median_luma_alpha8(data, width, height, kernel),
    };
    Ok(out)
}

} // verus!
