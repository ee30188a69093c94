//! Tests of the matching, aggregation and configuration components.

use bm3d::aggregate::{aggregate, Accumulator};
use bm3d::error::Bm3dError;
use bm3d::image::{Bm3dImage, Plane};
use bm3d::median::{denoise, ColorSpace};
use bm3d::params::{Bm3d, Bm3dParams, Parameters};
use bm3d::{
    divide_image, extract_patch, find_similar_patches, l2_patch_distance, search_window,
    ImageProcessingError, Margin,
};

fn plane_from_u8(vals: &[u8], w: usize, h: usize) -> Plane {
    Plane::from_bytes(&vals.to_vec(), w, h).unwrap()
}

#[test]
fn search_window_clamps_to_borders() {
    let plane = plane_from_u8(&vec![0u8; 64 * 48], 64, 48);
    // Centered window away from borders.
    let m = search_window(&plane, (30, 24), 8, 16).unwrap();
    assert_eq!(m.get(), ((26, 20), (42, 36)));
    // Near the top-left corner the window is shifted, not shrunk.
    let m = search_window(&plane, (1, 1), 8, 16).unwrap();
    assert_eq!(m.get(), ((0, 0), (16, 16)));
    // Near the bottom-right corner it is shifted back inside.
    let m = search_window(&plane, (56, 40), 8, 16).unwrap();
    assert_eq!(m.get(), ((48, 32), (64, 48)));
    // A block at least as large as the window is a configuration error.
    assert!(search_window(&plane, (0, 0), 16, 16).is_err());
}

#[test]
fn extract_patch_reads_the_window() {
    let vals: Vec<u8> = (0..64u32).map(|i| i as u8).collect();
    let plane = plane_from_u8(&vals, 8, 8);
    let p = extract_patch(&plane, (2, 3), 4).unwrap();
    assert_eq!(p.top_left, (2, 3));
    assert_eq!(p.data.len(), 16);
    for r in 0..4 {
        for c in 0..4 {
            assert_eq!(p.data[r * 4 + c], ((3 + r) * 8 + 2 + c) as i64 * 256);
        }
    }
    // Out of bounds.
    assert!(extract_patch(&plane, (6, 0), 4).is_none());
}

#[test]
fn l2_distance_counts_squared_differences() {
    let vals: Vec<u8> = (0..64u32).map(|i| (i % 7) as u8).collect();
    let plane = plane_from_u8(&vals, 8, 8);
    let a = extract_patch(&plane, (0, 0), 4).unwrap();
    let b = extract_patch(&plane, (0, 0), 4).unwrap();
    assert_eq!(l2_patch_distance(&a, &b), 0);
    let c = extract_patch(&plane, (1, 0), 4).unwrap();
    let d = l2_patch_distance(&a, &c);
    let expect: u64 = (0..16)
        .map(|i| {
            let r = i / 4;
            let cc = i % 4;
            let x = a.data[r * 4 + cc];
            let y = c.data[r * 4 + cc];
            ((x - y) * (x - y)) as u64
        })
        .sum();
    assert_eq!(d, expect);
}

#[test]
fn groups_are_sorted_with_reference_first() {
    // Two identical stripes guarantee perfect matches at distance zero.
    let w = 24;
    let h = 16;
    let vals: Vec<u8> = (0..h)
        .flat_map(|y| {
            let _ = y;
            (0..w).map(move |x| ((x * 16) % 256) as u8)
        })
        .collect();
    let plane = plane_from_u8(&vals, w, h);
    let g = find_similar_patches(&plane, (4, 4), 4, 9, 16, u64::MAX).unwrap();
    assert!(g.len() == 1 || g.len() == 2 || g.len() == 4 || g.len() == 8 || g.len() == 16);
    assert_eq!(g[0].top_left, (4, 4));
    // Distances are non-decreasing along the group.
    let rp = extract_patch(&plane, (4, 4), 4).unwrap();
    let mut last = 0u64;
    for k in 1..g.len() {
        let cand = extract_patch(&plane, g[k].top_left, 4).unwrap();
        let d = l2_patch_distance(&rp, &cand);
        assert!(d >= last, "distances not sorted");
        last = d;
    }
}

#[test]
fn blend_is_exact_at_the_ends() {
    let a: Vec<i64> = vec![0, 256, 512, 65280];
    let b: Vec<i64> = vec![65280, 512, 256, 0];
    assert_eq!(aggregate(&a, &b, 0).unwrap(), a);
    assert_eq!(aggregate(&a, &b, 256).unwrap(), b);
    let mid = aggregate(&a, &b, 128).unwrap();
    for i in 0..a.len() {
        let expect = (128 * a[i] + 128 * b[i] + 128) / 256;
        assert_eq!(mid[i], expect);
    }
}

#[test]
fn blend_rejects_bad_arguments() {
    let a: Vec<i64> = vec![1, 2, 3];
    let b: Vec<i64> = vec![1, 2];
    assert_eq!(
        aggregate(&a, &b, 300),
        Err(Bm3dError::InvalidMixFactor(300))
    );
    assert_eq!(
        aggregate(&a, &b, 128),
        Err(Bm3dError::DimensionMismatch { a: 3, b: 2 })
    );
}

#[test]
fn test_aggregate_patches() {
    // One patch of constant value folded into an empty accumulator: the
    // covered pixels take that value, the rest keep the fallback.
    let width = 16;
    let height = 16;
    let block_size = 4;
    let mut acc = Accumulator::new(width, height);
    let patch = vec![vec![256i64; block_size]; block_size];
    acc.add_patch(&patch, (0, 0), block_size, 1);

    let fallback = Plane::new_filled(width, height, 0);
    let out = acc.finalize(&fallback);
    assert_eq!(out.data.len(), width * height);
    for r in 0..block_size {
        for c in 0..block_size {
            assert_eq!(out.get(c, r), 256);
        }
    }
    assert_eq!(out.get(8, 8), 0);
}

#[test]
fn accumulator_averages_overlapping_patches() {
    let mut acc = Accumulator::new(8, 8);
    let low = vec![vec![256i64; 4]; 4];
    let high = vec![vec![768i64; 4]; 4];
    acc.add_patch(&low, (0, 0), 4, 1);
    acc.add_patch(&high, (0, 0), 4, 3);
    let fallback = Plane::new_filled(8, 8, 0);
    let out = acc.finalize(&fallback);
    // (1 * 256 + 3 * 768) / 4 = 640.
    assert_eq!(out.get(0, 0), 640);
}

#[test]
fn divide_image_covers_the_grid() {
    let w = 10;
    let h = 6;
    let vals: Vec<u8> = (0..w * h).map(|i| (i % 256) as u8).collect();
    let y = plane_from_u8(&vals, w, h);
    let cb = plane_from_u8(&vec![0u8; w * h], w, h);
    let cr = plane_from_u8(&vec![0u8; w * h], w, h);
    let img = Bm3dImage::new(y, cb, cr).unwrap();
    let params = Bm3dParams::new();
    let patches = divide_image(&img, &params).unwrap();
    // Stride 2 on a 10 x 6 image: 5 anchors per row, 3 rows of anchors.
    assert_eq!(patches.len(), 15);
    assert_eq!(patches[0].top_left, (0, 0));
    // The image is only 6 rows tall, so even the first patch is clipped.
    assert_eq!(patches[0].data.len(), 48);
    // The last anchor's patch is clipped to 2 x 2.
    assert_eq!(patches[14].top_left, (8, 4));
    assert_eq!(patches[14].data.len(), 4);
}

#[test]
fn divide_image_rejects_empty_images() {
    let empty = Plane::from_bytes(&Vec::new(), 0, 0).unwrap();
    let cb = Plane::from_bytes(&Vec::new(), 0, 0).unwrap();
    let cr = Plane::from_bytes(&Vec::new(), 0, 0).unwrap();
    let img = Bm3dImage::new(empty, cb, cr).unwrap();
    let params = Bm3dParams::new();
    assert!(matches!(
        divide_image(&img, &params),
        Err(ImageProcessingError::InvalidParameter(_))
    ));
}

#[test]
fn rgb8_entry_rejects_short_buffers() {
    let params = Bm3dParams::new();
    let short = vec![0u8; 10];
    assert!(matches!(
        bm3d::denoise_rgb8(&short, 16, 16, &params),
        Err(ImageProcessingError::UnsupportedFormat(_))
    ));
}

#[test]
fn margin_and_point_round_trip() {
    let mut m = Margin::new((1, 2), (3, 4));
    assert_eq!(m.get(), ((1, 2), (3, 4)));
    m.set((5, 6), (7, 8));
    assert_eq!(m.get(), ((5, 6), (7, 8)));
    let p = bm3d::Point { x: 9, y: -3 };
    assert_eq!((p.x, p.y), (9, -3));
}

#[test]
fn error_codes_round_trip() {
    assert_eq!(ImageProcessingError::ColorConversionError.code(), 0);
    assert_eq!(ImageProcessingError::DctError.code(), 1);
    assert_eq!(ImageProcessingError::WaveletError.code(), 2);
    assert_eq!(ImageProcessingError::Other("x").code(), 999);
    assert_eq!(
        ImageProcessingError::try_from_code(1),
        Ok(ImageProcessingError::DctError)
    );
    assert!(ImageProcessingError::try_from_code(7).is_err());
    assert_eq!(
        ImageProcessingError::InvalidParameter("bad").message(),
        "bad"
    );
}

#[test]
fn params_set_and_get() {
    let mut p = Bm3dParams::new();
    assert_eq!(p.get(Parameters::Sigma), 6400);
    assert_eq!(p.get(Parameters::Step1BlockSize), 8);
    assert!(p.set(Parameters::Sigma, 2560));
    assert_eq!(p.get(Parameters::Sigma), 2560);
    assert!(p.set(Parameters::LuminanceOnly, 1));
    assert_eq!(p.get(Parameters::LuminanceOnly), 1);
    assert!(!p.set(Parameters::Mix, -5));
    // A rejected value leaves the record unchanged.
    assert_eq!(p.get(Parameters::Mix), 256);
}

#[test]
fn ycbcr_conversion_matches_integer_formulas() {
    let cfg = Bm3d::new(6400, 691, 8, 39, false, 0);
    let (y, cb, cr) = cfg.rgb_to_ycbcr_fast(255, 0, 0);
    assert_eq!(y as i32, ((66 * 255 + 128) >> 8) + 16);
    assert_eq!(cb as i32, ((-38 * 255 + 128) >> 8) + 128);
    assert_eq!(cr as i32, ((112 * 255 + 128) >> 8) + 128);
    // Gray stays gray through the round trip.
    let (y, cb, cr) = cfg.rgb_to_ycbcr_fast(128, 128, 128);
    let (r, g, b) = cfg.ycbcr_to_rgb_fast(y, cb, cr);
    assert!((r as i32 - 128).abs() <= 1);
    assert!((g as i32 - 128).abs() <= 1);
    assert!((b as i32 - 128).abs() <= 1);
    // Luminance-only conversion zeroes the chroma samples.
    let lum = Bm3d::new(6400, 691, 8, 39, true, 0);
    let (_, cb, cr) = lum.rgb_to_ycbcr_fast(200, 10, 30);
    assert_eq!((cb, cr), (0, 0));
}

#[test]
fn median_removes_an_outlier() {
    // 5 x 5 grayscale, all 100 but one bright pixel: the median wipes it.
    let mut data = vec![100u8; 25];
    data[12] = 255;
    let out = denoise(&data, 5, 5, 1, ColorSpace::Luma8).unwrap();
    assert_eq!(out.len(), 25);
    assert_eq!(out[12], 100);
}

#[test]
fn median_filters_rgb_channels() {
    let mut data = vec![50u8; 5 * 5 * 3];
    data[(2 * 5 + 2) * 3] = 250;
    let out = denoise(&data, 5, 5, 1, ColorSpace::Rgb8).unwrap();
    assert_eq!(out.len(), data.len());
    assert_eq!(out[(2 * 5 + 2) * 3], 50);
}

#[test]
fn median_handles_alpha_layouts() {
    let mut rgba = vec![80u8; 4 * 4 * 4];
    rgba[(1 * 4 + 1) * 4 + 1] = 200;
    let out = denoise(&rgba, 4, 4, 1, ColorSpace::Rgba8).unwrap();
    assert_eq!(out[(1 * 4 + 1) * 4 + 1], 80);

    let mut la = vec![60u8; 4 * 4 * 2];
    la[(2 * 4 + 2) * 2] = 220;
    let out = denoise(&la, 4, 4, 1, ColorSpace::LumaAlpha8).unwrap();
    assert_eq!(out[(2 * 4 + 2) * 2], 60);
}

#[test]
fn median_rejects_bad_buffers() {
    let data = vec![0u8; 10];
    assert!(denoise(&data, 5, 5, 1, ColorSpace::Luma8).is_err());
}

#[test]
fn median_rejects_oversized_kernels() {
    // A kernel radius this large would overflow the filter's internal
    // window-area arithmetic; it must be rejected, not passed through.
    let data = vec![0u8; 100 * 100];
    assert!(denoise(&data, 100, 100, 40000, ColorSpace::Luma8).is_err());
    assert!(denoise(&data, 100, 100, 0x4000, ColorSpace::Luma8).is_err());
    // A radius larger than the image but within the arithmetic bound is fine.
    let small = vec![0u8; 20 * 20];
    assert!(denoise(&small, 20, 20, 100, ColorSpace::Luma8).is_ok());
}
