//! End-to-end tests of the denoising pipeline.

use bm3d::aggregate::Accumulator;
use bm3d::image::{Bm3dImage, Plane};
use bm3d::matching::Patch;
use bm3d::params::Bm3dParams;
use bm3d::{denoise, denoise_rgb8, hard_pass};

/// A deterministic pseudo-random generator (xorshift64), used to synthesize
/// noise with a fixed seed.
struct Rng(u64);

impl Rng {
    fn next(&mut self) -> u64 {
        let mut x = self.0;
        x ^= x << 13;
        x ^= x >> 7;
        x ^= x << 17;
        self.0 = x;
        x
    }

    /// Approximately Gaussian sample with the given standard deviation,
    /// from a sum of twelve uniform variables.
    fn gaussian(&mut self, sigma: f64) -> f64 {
        let mut s = 0.0f64;
        for _ in 0..12 {
            s += (self.next() % 10000) as f64 / 10000.0;
        }
        (s - 6.0) * sigma
    }
}

fn plane_from_u8(vals: &[u8], w: usize, h: usize) -> Plane {
    Plane::from_bytes(&vals.to_vec(), w, h).unwrap()
}

fn gray_image(vals: &[u8], w: usize, h: usize) -> Bm3dImage {
    let y = plane_from_u8(vals, w, h);
    let cb = plane_from_u8(&vec![128u8; w * h], w, h);
    let cr = plane_from_u8(&vec![128u8; w * h], w, h);
    Bm3dImage::new(y, cb, cr).unwrap()
}

fn fast_params(sigma: u32) -> Bm3dParams {
    let mut p = Bm3dParams::new();
    p.sigma_q8 = sigma * 256;
    p.window1 = 15;
    p.window2 = 15;
    p.max_match1 = 8;
    p.max_match2 = 8;
    p.step1 = 4;
    p.step2 = 4;
    p
}

fn psnr(a: &[u8], b: &[u8]) -> f64 {
    let mse: f64 = a
        .iter()
        .zip(b.iter())
        .map(|(&x, &y)| {
            let d = x as f64 - y as f64;
            d * d
        })
        .sum::<f64>() / a.len() as f64;
    10.0 * (255.0f64 * 255.0 / mse).log10()
}

#[test]
fn constant_gray_is_preserved() {
    // Constant 128 gray, 64 x 64, sigma = 20, nominal parameters: every
    // output pixel stays within one level of 128.
    let w = 64;
    let h = 64;
    let rgb = vec![128u8; w * h * 3];
    let mut p = Bm3dParams::new();
    p.sigma_q8 = 20 * 256;
    let out = denoise_rgb8(&rgb, w, h, &p).unwrap();
    assert_eq!(out.len(), w * h * 3);
    for &v in &out {
        assert!((v as i32 - 128).abs() <= 1, "pixel {} strays from 128", v);
    }
}

#[test]
fn gradient_with_noise_gains_psnr() {
    // Gradient pixel(x, y) = x + y with Gaussian noise of sigma 15, fixed
    // seed: denoising gains at least 3 dB of PSNR against the clean image.
    let w = 64;
    let h = 64;
    let mut rng = Rng(0x1234_5678_9abc_def0);
    let clean: Vec<u8> = (0..h)
        .flat_map(|y| (0..w).map(move |x| ((x + y) % 256) as u8))
        .collect();
    let noisy: Vec<u8> = clean
        .iter()
        .map(|&v| (v as f64 + rng.gaussian(15.0)).round().clamp(0.0, 255.0) as u8)
        .collect();

    let img = gray_image(&noisy, w, h);
    let mut p = Bm3dParams::new();
    p.sigma_q8 = 15 * 256;
    let out = denoise(&img, &p).unwrap();
    let denoised = out.planes[0].to_bytes();

    let before = psnr(&noisy, &clean);
    let after = psnr(&denoised, &clean);
    assert!(
        after >= before + 3.0,
        "PSNR gain too small: {:.2} dB -> {:.2} dB",
        before,
        after
    );
}

#[test]
fn single_block_group_holds_reference_only() {
    // An 8 x 8 image with block size 8 and window 15 admits exactly one
    // anchor, so the group holds only the reference patch.
    let w = 8;
    let h = 8;
    let vals: Vec<u8> = (0..64).map(|i| (i * 3 % 256) as u8).collect();
    let plane = plane_from_u8(&vals, w, h);
    let group: Vec<Patch> =
        bm3d::find_similar_patches(&plane, (0, 0), 8, 15, 1, u64::MAX).unwrap();
    assert_eq!(group.len(), 1);
    assert_eq!(group[0].top_left, (0, 0));
}

#[test]
fn single_block_pass_equals_block_filter() {
    // On an image of exactly one block, the hard-thresholding pass reduces
    // to DCT, threshold, inverse DCT of that block.
    let w = 8;
    let h = 8;
    let vals: Vec<u8> = (0..64).map(|i| ((i * 37 + 11) % 256) as u8).collect();
    let plane = plane_from_u8(&vals, w, h);
    let sigma_q8: u64 = 20 * 256;
    let lambda3d_q8: u64 = 691;
    let t_q8 = (lambda3d_q8 * sigma_q8 / 256) as i64;
    let sigma2_q16 = sigma_q8 * sigma_q8;
    let tau_q = 2500u64 * 64 * 1024;

    let acc = hard_pass(&plane, 8, 15, 3, 16, tau_q, t_q8, sigma2_q16);
    let basic = acc.finalize(&plane);

    // Direct per-block filter.
    let mut block: Vec<Vec<i64>> = (0..8)
        .map(|r| (0..8).map(|c| (vals[r * 8 + c] as i64) * 256).collect())
        .collect();
    bm3d::dct::dct2d(&mut block);
    bm3d::hard::hard_threshold(&mut block, t_q8);
    bm3d::dct::idct2d(&mut block);

    for r in 0..8 {
        for c in 0..8 {
            let got = basic.get(c, r);
            let expect = block[r][c].clamp(0, 65280);
            assert!(
                (got - expect).abs() <= 1,
                "mismatch at ({}, {}): {} vs {}",
                c,
                r,
                got,
                expect
            );
        }
    }
}

#[test]
fn checkerboard_stays_close() {
    // Checkerboard 32 x 32, sigma = 10: after both passes the mean absolute
    // error against the clean checkerboard stays at most 4.
    let w = 32;
    let h = 32;
    let clean: Vec<u8> = (0..h)
        .flat_map(|y| (0..w).map(move |x| if (x + y) % 2 == 0 { 64u8 } else { 192u8 }))
        .collect();
    let img = gray_image(&clean, w, h);
    let mut p = Bm3dParams::new();
    p.sigma_q8 = 10 * 256;
    // The nominal window does not fit a 32-pixel side; use the largest that does.
    p.window1 = 31;
    p.window2 = 31;
    let out = denoise(&img, &p).unwrap();
    let denoised = out.planes[0].to_bytes();
    let mae: f64 = clean
        .iter()
        .zip(denoised.iter())
        .map(|(&a, &b)| (a as f64 - b as f64).abs())
        .sum::<f64>() / clean.len() as f64;
    assert!(mae <= 4.0, "mean absolute error too large: {}", mae);
}

#[test]
fn mix_half_blends_noisy_and_denoised() {
    // 128 x 128 with mix one half: the output equals the average of the
    // noisy input and the pure denoised estimate, within one level.
    let w = 128;
    let h = 128;
    let noisy: Vec<u8> = (0..h)
        .flat_map(|y| (0..w).map(move |x| ((2 * x + y) % 256) as u8))
        .collect();
    let img = gray_image(&noisy, w, h);

    let mut p_full = fast_params(10);
    p_full.mix_q8 = 256;
    let denoised = denoise(&img, &p_full).unwrap();

    let mut p_half = fast_params(10);
    p_half.mix_q8 = 128;
    let mixed = denoise(&img, &p_half).unwrap();

    let n = &img.planes[0].data;
    let d = &denoised.planes[0].data;
    let m = &mixed.planes[0].data;
    for i in 0..n.len() {
        let expect = (n[i] + d[i]) / 2;
        assert!(
            (m[i] - expect).abs() <= 256,
            "blend off at {}: {} vs {}",
            i,
            m[i],
            expect
        );
    }
}

#[test]
fn mix_zero_returns_input() {
    let w = 32;
    let h = 32;
    let vals: Vec<u8> = (0..w * h).map(|i| (i % 251) as u8).collect();
    let img = gray_image(&vals, w, h);
    let mut p = fast_params(20);
    p.mix_q8 = 0;
    let out = denoise(&img, &p).unwrap();
    for c in 0..3 {
        assert_eq!(out.planes[c].data, img.planes[c].data);
    }
}

#[test]
fn luminance_only_passes_chroma_through() {
    let w = 32;
    let h = 32;
    let y: Vec<u8> = (0..w * h).map(|i| (i % 256) as u8).collect();
    let cb: Vec<u8> = (0..w * h).map(|i| ((i * 7 + 3) % 256) as u8).collect();
    let cr: Vec<u8> = (0..w * h).map(|i| ((i * 13 + 5) % 256) as u8).collect();
    let img = Bm3dImage::new(
        plane_from_u8(&y, w, h),
        plane_from_u8(&cb, w, h),
        plane_from_u8(&cr, w, h),
    )
    .unwrap();
    let mut p = fast_params(15);
    p.luminance_only = true;
    let out = denoise(&img, &p).unwrap();
    assert_eq!(out.planes[1].data, img.planes[1].data);
    assert_eq!(out.planes[2].data, img.planes[2].data);
    // The luminance plane is actually denoised, not copied.
    assert_eq!(out.planes[0].data.len(), img.planes[0].data.len());
}

#[test]
fn configuration_errors_are_reported() {
    let w = 32;
    let h = 32;
    let vals = vec![100u8; w * h];
    let img = gray_image(&vals, w, h);

    let mut zero_sigma = Bm3dParams::new();
    zero_sigma.sigma_q8 = 0;
    let r = denoise(&img, &zero_sigma);
    assert!(matches!(
        r,
        Err(bm3d::ImageProcessingError::InvalidParameter(_))
    ));

    let mut bad_block = Bm3dParams::new();
    bad_block.block_size = 5;
    let r = denoise(&img, &bad_block);
    assert!(matches!(
        r,
        Err(bm3d::ImageProcessingError::InvalidParameter(_))
    ));

    let mut bad_mix = Bm3dParams::new();
    bad_mix.mix_q8 = 300;
    assert!(denoise(&img, &bad_mix).is_err());

    let mut bad_step = Bm3dParams::new();
    bad_step.step1 = 9;
    assert!(denoise(&img, &bad_step).is_err());

    // A search window larger than the image is a configuration error too.
    let mut bad_window = Bm3dParams::new();
    bad_window.window1 = 39;
    assert!(matches!(
        denoise(&img, &bad_window),
        Err(bm3d::ImageProcessingError::InvalidParameter(_))
    ));
}

#[test]
fn monotone_suppression_on_noisy_input() {
    // Increasing sigma on a fixed noisy input does not increase the total
    // variation of the output.
    let w = 32;
    let h = 32;
    let mut rng = Rng(0x0123_4567_89ab_cdef);
    let noisy: Vec<u8> = (0..w * h)
        .map(|_| (128.0 + rng.gaussian(12.0)).round().clamp(0.0, 255.0) as u8)
        .collect();
    let img = gray_image(&noisy, w, h);

    let tv = |data: &[u8]| -> f64 {
        let mut s = 0.0;
        for y in 0..h {
            for x in 0..w {
                if x + 1 < w {
                    s += (data[y * w + x] as f64 - data[y * w + x + 1] as f64).abs();
                }
                if y + 1 < h {
                    s += (data[y * w + x] as f64 - data[(y + 1) * w + x] as f64).abs();
                }
            }
        }
        s
    };

    let out_low = denoise(&img, &fast_params(5)).unwrap();
    let out_high = denoise(&img, &fast_params(25)).unwrap();
    let tv_low = tv(&out_low.planes[0].to_bytes());
    let tv_high = tv(&out_high.planes[0].to_bytes());
    assert!(
        tv_high <= tv_low,
        "total variation grew with sigma: {} -> {}",
        tv_low,
        tv_high
    );
}

#[test]
fn symmetry_under_horizontal_flip() {
    // Denoising a horizontally flipped image equals the horizontal flip of
    // the denoised image, within one level per pixel.
    let w = 32;
    let h = 32;
    let mut rng = Rng(0x5555_aaaa_5555_aaaa);
    let noisy: Vec<u8> = (0..h)
        .flat_map(|y| (0..w).map(move |x| ((x * x + 3 * y) % 256) as u8))
        .map(|v| (v as f64 + rng.gaussian(6.0)).round().clamp(0.0, 255.0) as u8)
        .collect();
    let flip = |data: &[u8]| -> Vec<u8> {
        let mut out = vec![0u8; data.len()];
        for y in 0..h {
            for x in 0..w {
                out[y * w + x] = data[y * w + (w - 1 - x)];
            }
        }
        out
    };

    let p = fast_params(10);
    let out_a = denoise(&gray_image(&noisy, w, h), &p).unwrap();
    let out_b = denoise(&gray_image(&flip(&noisy), w, h), &p).unwrap();
    let a = out_a.planes[0].to_bytes();
    let b = flip(&out_b.planes[0].to_bytes());
    let max_diff = a
        .iter()
        .zip(b.iter())
        .map(|(&x, &y)| (x as i32 - y as i32).abs())
        .max()
        .unwrap();
    assert!(max_diff <= 1, "flip symmetry broken: max diff {}", max_diff);
}

#[test]
fn aggregation_covers_every_pixel() {
    // After a pass with step at most the block size, every pixel has a
    // positive denominator.
    let w = 24;
    let h = 20;
    let vals: Vec<u8> = (0..w * h).map(|i| ((i * 5 + 7) % 256) as u8).collect();
    let plane = plane_from_u8(&vals, w, h);
    let acc: Accumulator = hard_pass(&plane, 8, 15, 8, 8, 2500 * 64 * 1024, 5000, 400 * 65536);
    for i in 0..w * h {
        assert!(acc.den[i] > 0, "pixel {} uncovered", i);
    }
    assert_eq!(acc.width, w);
    assert_eq!(acc.height, h);
}

#[test]
fn flat_channel_stays_flat() {
    // The hard-thresholding pass maps a flat channel to a flat channel:
    // every output sample holds one and the same value.
    let w = 24;
    let h = 16;
    let vals = vec![100u8; w * h];
    let plane = plane_from_u8(&vals, w, h);
    let acc = hard_pass(&plane, 8, 15, 4, 8, 2500 * 64 * 1024, 20 * 691, 20 * 20 * 65536);
    let out = acc.finalize(&plane);
    let first = out.data[0];
    for &v in &out.data {
        assert_eq!(v, first, "flat input produced structure");
    }
    // And the flat level stays within one 8-bit step of the input.
    assert!((first - 100 * 256).abs() <= 256, "flat level moved: {}", first);
}

#[test]
fn test_denoise_with_test_image() {
    // A 128 x 128 RGB pattern with a small sigma: the pipeline completes
    // and returns a buffer of the input's size.
    let width = 128;
    let height = 128;
    let mut img_data = vec![0u8; width * height * 3];
    for y in 0..height {
        for x in 0..width {
            let idx = (y * width + x) * 3;
            img_data[idx] = ((x + y) % 256) as u8;
            img_data[idx + 1] = (x % 256) as u8;
            img_data[idx + 2] = (y % 256) as u8;
        }
    }
    let mut p = fast_params(10);
    p.step1 = 8;
    p.step2 = 8;
    let out = denoise_rgb8(&img_data, width, height, &p).unwrap();
    assert_eq!(out.len(), width * height * 3);
}
