//! Tests of the fixed-point transforms and the hard threshold.

use bm3d::dct::{dct2d, idct2d, Dct2D, IDct2D};
use bm3d::hard::{hard_threshold, hard_threshold_count};

fn q8(v: f64) -> i64 {
    (v * 256.0).round() as i64
}

fn block_q8(vals: &[&[f64]]) -> Vec<Vec<i64>> {
    vals.iter().map(|row| row.iter().map(|&v| q8(v)).collect()).collect()
}

#[test]
fn test_hard_threshold() {
    let mut block = block_q8(&[&[0.5, 2.0, -1.0], &[3.0, -0.2, 0.0]]);
    let threshold = q8(1.0);
    hard_threshold(&mut block, threshold);

    let expected = block_q8(&[&[0.0, 2.0, -1.0], &[3.0, 0.0, 0.0]]);
    assert_eq!(block, expected);
}

#[test]
fn hard_threshold_count_reports_survivors() {
    let mut block = vec![vec![0i64, 300, -300], vec![256, -255, 10]];
    let n = hard_threshold_count(&mut block, 256);
    // Retained: 300, -300 and 256; zeroed: 0, -255 and 10.
    assert_eq!(n, 3);
    assert_eq!(block, vec![vec![0, 300, -300], vec![256, 0, 0]]);
}

#[test]
fn dct2d_idct2d_roundtrip_8x8() {
    let mut block: Vec<Vec<i64>> = (0..8)
        .map(|r| (0..8).map(|c| ((r * 31 + c * 17 + 5) % 256) as i64 * 256).collect())
        .collect();
    let original = block.clone();

    dct2d(&mut block);
    idct2d(&mut block);

    for r in 0..8 {
        for c in 0..8 {
            let diff = (block[r][c] - original[r][c]).abs();
            // Within 8/256 of a pixel value.
            assert!(diff <= 8, "mismatch at ({}, {}): {} vs {}", r, c, block[r][c], original[r][c]);
        }
    }
}

#[test]
fn dct2d_idct2d_roundtrip_4x4() {
    let mut block: Vec<Vec<i64>> = (0..4)
        .map(|r| (0..4).map(|c| ((r * 63 + c * 41 + 9) % 256) as i64 * 256).collect())
        .collect();
    let original = block.clone();

    let dct = Dct2D::new(4, 4);
    dct.dct_2d(&mut block);
    let idct = IDct2D::new(4, 4);
    idct.idct_2d(&mut block);

    for r in 0..4 {
        for c in 0..4 {
            let diff = (block[r][c] - original[r][c]).abs();
            assert!(diff <= 8, "mismatch at ({}, {})", r, c);
        }
    }
}

#[test]
fn dct2d_parseval_8x8() {
    // The orthonormal transform preserves the sum of squares.
    let block: Vec<Vec<i64>> = (0..8)
        .map(|r| (0..8).map(|c| ((r * 13 + c * 29 + 3) % 256) as i64 * 256).collect())
        .collect();
    let mut t = block.clone();
    dct2d(&mut t);

    let e_in: f64 = block.iter().flatten().map(|&v| (v as f64) * (v as f64)).sum();
    let e_out: f64 = t.iter().flatten().map(|&v| (v as f64) * (v as f64)).sum();
    let rel = (e_in - e_out).abs() / e_in;
    assert!(rel < 1e-3, "energy not preserved: {} vs {}", e_in, e_out);
}

#[test]
fn process_roundtrip_4x4() {
    let input: Vec<Vec<i64>> = (0..4)
        .map(|r| (0..4).map(|c| ((r * 4 + c + 1) * 256) as i64).collect())
        .collect();
    let mut out_dct = Vec::new();
    let mut out_roundtrip = Vec::new();

    let dct = Dct2D::new(4, 4);
    dct.process(&input, &mut out_dct);
    let idct = IDct2D::new(4, 4);
    idct.process(&out_dct, &mut out_roundtrip);

    for r in 0..4 {
        for c in 0..4 {
            let diff = (out_roundtrip[r][c] - input[r][c]).abs();
            assert!(diff <= 8, "mismatch after process() roundtrip at ({}, {})", r, c);
        }
    }
}

#[test]
fn dct_of_constant_block_concentrates_in_dc() {
    let mut block = vec![vec![128 * 256i64; 8]; 8];
    dct2d(&mut block);
    // Every non-DC coefficient of a constant block vanishes exactly, because
    // the non-constant rows of the coefficient table sum to zero.
    for r in 0..8 {
        for c in 0..8 {
            if r != 0 || c != 0 {
                assert_eq!(block[r][c], 0, "non-DC coefficient at ({}, {})", r, c);
            }
        }
    }
    assert!(block[0][0] > 0);
}

#[test]
fn scaled_dct_inverts() {
    let mut block: Vec<Vec<i64>> = (0..8)
        .map(|r| (0..8).map(|c| ((r * 7 + c * 3 + 60) % 256) as i64 * 256).collect())
        .collect();
    let original = block.clone();
    bm3d::dct::scaled_dct2(&mut block);
    bm3d::dct::scaled_idct2(&mut block);
    for r in 0..8 {
        for c in 0..8 {
            let diff = (block[r][c] - original[r][c]).abs();
            assert!(diff <= 16, "mismatch at ({}, {})", r, c);
        }
    }
}

#[test]
fn test_wiener_simple() {
    let mut noisy = block_q8(&[
        &[10.0, 20.0, 30.0, 25.0],
        &[40.0, 50.0, 60.0, 55.0],
        &[70.0, 80.0, 90.0, 85.0],
        &[65.0, 60.0, 55.0, 50.0],
    ]);
    let reference = block_q8(&[
        &[11.0, 19.0, 31.0, 26.0],
        &[39.0, 51.0, 59.0, 54.0],
        &[71.0, 79.0, 91.0, 86.0],
        &[64.0, 61.0, 54.0, 51.0],
    ]);
    let original = noisy.clone();
    let sigma2_q16 = 5i64 * 5 * 65536;

    bm3d::wiener::wiener_filter_block(&mut noisy, &reference, sigma2_q16);

    // At least one value should be modified by the Wiener filter.
    let changed = noisy
        .iter()
        .flatten()
        .zip(original.iter().flatten())
        .any(|(&n, &o)| n != o);
    assert!(changed, "at least one value should be modified by the Wiener filter");
}

#[test]
fn wiener_with_tiny_noise_keeps_signal() {
    let mut noisy = block_q8(&[
        &[10.0, 20.0, 30.0, 25.0],
        &[40.0, 50.0, 60.0, 55.0],
        &[70.0, 80.0, 90.0, 85.0],
        &[65.0, 60.0, 55.0, 50.0],
    ]);
    let reference = noisy.clone();
    // sigma = 1/16 pixel: gains are close to one, the block passes through.
    bm3d::wiener::wiener_filter_block(&mut noisy, &reference, 256);
    for r in 0..4 {
        for c in 0..4 {
            let diff = (noisy[r][c] - reference[r][c]).abs();
            assert!(diff <= 64, "wiener changed too much at ({}, {})", r, c);
        }
    }
}
