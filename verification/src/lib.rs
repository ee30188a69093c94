//! BM3D (block-matching and 3-D filtering) image denoiser.
//!
//! The denoiser works on planar images whose samples are 8.8 fixed-point
//! integers (a pixel value `v` in `0..=255` is stored as `v * 256`), so that
//! every arithmetic step of the pipeline is exact integer arithmetic with a
//! verified contract.  The pipeline runs two passes over each channel: a
//! hard-thresholding pass that produces a basic estimate, and a Wiener pass
//! that refines it.

pub mod aggregate;
pub mod bm3d;
pub mod dct;
pub mod error;
pub mod fixed;
pub mod geometry;
pub mod group;
pub mod haar;
pub mod hard;
pub mod image;
pub mod matching;
pub mod median;
pub mod params;
pub mod wiener;

pub use aggregate::{aggregate, Accumulator};
pub use bm3d::{
    anchor_grid, denoise, denoise_channel, denoise_rgb8, hard_pass, validate_params, wiener_pass,
};
pub use dct::{dct2d, idct2d, scaled_dct2, scaled_idct2, Dct2D, IDct2D};
pub use error::{AggError, Bm3dError, ImageProcessingError};
pub use geometry::{Margin, Point};
pub use group::{divide_image, form_group};
pub use image::{Bm3dImage, Plane};
pub use hard::{hard_threshold, hard_threshold_count};
pub use matching::{extract_patch, find_similar_patches, l2_patch_distance, search_window, Patch};
pub use params::{Bm3d, Bm3dParams, Parameters};
pub use wiener::{wiener_filter_block, wiener_filter_blocks};
