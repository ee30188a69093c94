//! Typed configuration records for the denoiser.
//!
//! Fractional parameters are 8.8 fixed-point integers: a noise level of
//! 25.0 is stored as `6400`, the blend factor runs from 0 (input only) to
//! 256 (denoised only).

use vstd::prelude::*;

verus! {

/// One blend unit: the fixed-point value that stands for 1.0.
pub const MIX_ONE_Q8: u32 = 256;

/// Keys of the recognized parameters.
#[derive(Debug, Clone, Copy, PartialEq, Eq, Hash, Structural)]
pub enum Parameters {
    /// Noise standard deviation, 8.8 fixed point (default 25.0).
    Sigma,
    /// 2-D threshold weight, 8.8 fixed point (default 2.0).
    Lamb2D,
    /// 3-D threshold weight, 8.8 fixed point (default 2.7).
    Lamb3D,
    /// Kaiser window parameter, 8.8 fixed point (default 2.0).
    KaiserWindowBeta,
    /// Pass-1 match threshold per 64 samples (default 2500).
    Step1ThresholdDist,
    /// Pass-1 group size limit (default 16).
    Step1MaxMatch,
    /// Block side (default 8).
    Step1BlockSize,
    /// Pass-1 stride between reference anchors (default 3).
    Step1SpeedupFactor,
    /// Pass-1 search window side (default 39).
    Step1WindowSize,
    /// Pass-2 match threshold per 64 samples (default 400).
    Step2ThresholdDist,
    /// Pass-2 group size limit (default 16).
    Step2MaxMatch,
    /// Block side of the second pass; kept equal to the first.
    Step2BlockSize,
    /// Pass-2 stride between reference anchors (default 3).
    Step2SpeedupFactor,
    /// Pass-2 search window side (default 39).
    Step2WindowSize,
    /// Denoise only the luminance channel.
    LuminanceOnly,
    /// Blend factor between input and denoised output, 0..=256.
    Mix,
    /// Emit the residual instead of the estimate (unused by the core).
    Residual,
}

/// The full typed configuration record of the pipeline.
#[derive(Debug, Clone, Copy, PartialEq, Eq, Structural)]
pub struct Bm3dParams {
    /// Noise standard deviation, 8.8 fixed point.
    pub sigma_q8: u32,
    /// 2-D threshold weight, 8.8 fixed point.
    pub lambda2d_q8: u32,
    /// 3-D threshold weight, 8.8 fixed point.
    pub lambda3d_q8: u32,
    /// Kaiser window parameter, 8.8 fixed point.
    pub kaiser_beta_q8: u32,
    /// Block side.
    pub block_size: usize,
    /// Pass-1 match threshold per 64 samples.
    pub tau1: u32,
    /// Pass-1 group size limit.
    pub max_match1: usize,
    /// Pass-1 stride between reference anchors.
    pub step1: usize,
    /// Pass-1 search window side.
    pub window1: usize,
    /// Pass-2 match threshold per 64 samples.
    pub tau2: u32,
    /// Pass-2 group size limit.
    pub max_match2: usize,
    /// Pass-2 stride between reference anchors.
    pub step2: usize,
    /// Pass-2 search window side.
    pub window2: usize,
    /// Denoise only the luminance channel.
    pub luminance_only: bool,
    /// Blend factor between input and denoised output, 0..=256.
    pub mix_q8: u32,
    /// Emit the residual instead of the estimate (unused by the core).
    pub residual: bool,
}

impl Bm3dParams {
    /// The nominal configuration.
    pub open spec fn default_spec() -> Bm3dParams {
        Bm3dParams {
            sigma_q8: 6400,
            lambda2d_q8: 512,
            lambda3d_q8: 691,
            kaiser_beta_q8: 512,
            block_size: 8,
            tau1: 2500,
            max_match1: 16,
            step1: 3,
            window1: 39,
            tau2: 400,
            max_match2: 16,
            step2: 3,
            window2: 39,
            luminance_only: false,
            mix_q8: 256,
            residual: false,
        }
    }

    /// Construct the nominal configuration.
    pub fn new() -> (r: Bm3dParams)
        ensures
            r == Bm3dParams::default_spec(),
    {
        Bm3dParams {
            sigma_q8: 6400,
            lambda2d_q8: 512,
            lambda3d_q8: 691,
            kaiser_beta_q8: 512,
            block_size: 8,
            tau1: 2500,
            max_match1: 16,
            step1: 3,
            window1: 39,
            tau2: 400,
            max_match2: 16,
            step2: 3,
            window2: 39,
            luminance_only: false,
            mix_q8: 256,
            residual: false,
        }
    }

    /// The record after storing `value` under `key`; values outside
    /// `0..=2^31` are rejected and leave the record unchanged.
    pub open spec fn set_spec(self, key: Parameters, value: i64) -> (Bm3dParams, bool) {
        if value < 0 || value > 0x8000_0000 {
            (self, false)
        } else {
            match key {
                Parameters::Sigma => (Bm3dParams { sigma_q8: value as u32, ..self }, true),
                Parameters::Lamb2D => (Bm3dParams { lambda2d_q8: value as u32, ..self }, true),
                Parameters::Lamb3D => (Bm3dParams { lambda3d_q8: value as u32, ..self }, true),
                Parameters::KaiserWindowBeta => (
                    Bm3dParams { kaiser_beta_q8: value as u32, ..self },
                    true,
                ),
                Parameters::Step1ThresholdDist => (Bm3dParams { tau1: value as u32, ..self }, true),
                Parameters::Step1MaxMatch => (
                    Bm3dParams { max_match1: value as usize, ..self },
                    true,
                ),
                Parameters::Step1BlockSize => (
                    Bm3dParams { block_size: value as usize, ..self },
                    true,
                ),
                Parameters::Step1SpeedupFactor => (
                    Bm3dParams { step1: value as usize, ..self },
                    true,
                ),
                Parameters::Step1WindowSize => (
                    Bm3dParams { window1: value as usize, ..self },
                    true,
                ),
                Parameters::Step2ThresholdDist => (Bm3dParams { tau2: value as u32, ..self }, true),
                Parameters::Step2MaxMatch => (
                    Bm3dParams { max_match2: value as usize, ..self },
                    true,
                ),
                Parameters::Step2BlockSize => (
                    Bm3dParams { block_size: value as usize, ..self },
                    true,
                ),
                Parameters::Step2SpeedupFactor => (
                    Bm3dParams { step2: value as usize, ..self },
                    true,
                ),
                Parameters::Step2WindowSize => (
                    Bm3dParams { window2: value as usize, ..self },
                    true,
                ),
                Parameters::LuminanceOnly => (
                    Bm3dParams { luminance_only: value != 0, ..self },
                    true,
                ),
                Parameters::Mix => (Bm3dParams { mix_q8: value as u32, ..self }, true),
                Parameters::Residual => (Bm3dParams { residual: value != 0, ..self }, true),
            }
        }
    }

    /// Store `value` under `key`; the CLI adapter for the typed record.
    pub fn set(&mut self, key: Parameters, value: i64) -> (accepted: bool)
        ensures
            (*final(self), accepted) == old(self).set_spec(key, value),
    {
        if value < 0 || value > 0x8000_0000 {
            return false;
        }
        match key {
            Parameters::Sigma => self.sigma_q8 = value as u32,
            Parameters::Lamb2D => self.lambda2d_q8 = value as u32,
            Parameters::Lamb3D => self.lambda3d_q8 = value as u32,
            Parameters::KaiserWindowBeta => self.kaiser_beta_q8 = value as u32,
            Parameters::Step1ThresholdDist => self.tau1 = value as u32,
            Parameters::Step1MaxMatch => self.max_match1 = value as usize,
            Parameters::Step1BlockSize => self.block_size = value as usize,
            Parameters::Step1SpeedupFactor => self.step1 = value as usize,
            Parameters::Step1WindowSize => self.window1 = value as usize,
            Parameters::Step2ThresholdDist => self.tau2 = value as u32,
            Parameters::Step2MaxMatch => self.max_match2 = value as usize,
            Parameters::Step2BlockSize => self.block_size = value as usize,
            Parameters::Step2SpeedupFactor => self.step2 = value as usize,
            Parameters::Step2WindowSize => self.window2 = value as usize,
            Parameters::LuminanceOnly => self.luminance_only = value != 0,
            Parameters::Mix => self.mix_q8 = value as u32,
            Parameters::Residual => self.residual = value != 0,
        }
        true
    }

    /// The value stored under `key`, as an integer.
    pub open spec fn get_spec(self, key: Parameters) -> i64 {
        match key {
            Parameters::Sigma => self.sigma_q8 as i64,
            Parameters::Lamb2D => self.lambda2d_q8 as i64,
            Parameters::Lamb3D => self.lambda3d_q8 as i64,
            Parameters::KaiserWindowBeta => self.kaiser_beta_q8 as i64,
            Parameters::Step1ThresholdDist => self.tau1 as i64,
            Parameters::Step1MaxMatch => self.max_match1 as i64,
            Parameters::Step1BlockSize => self.block_size as i64,
            Parameters::Step1SpeedupFactor => self.step1 as i64,
            Parameters::Step1WindowSize => self.window1 as i64,
            Parameters::Step2ThresholdDist => self.tau2 as i64,
            Parameters::Step2MaxMatch => self.max_match2 as i64,
            Parameters::Step2BlockSize => self.block_size as i64,
            Parameters::Step2SpeedupFactor => self.step2 as i64,
            Parameters::Step2WindowSize => self.window2 as i64,
            Parameters::LuminanceOnly => if self.luminance_only {
                1
            } else {
                0
            },
            Parameters::Mix => self.mix_q8 as i64,
            Parameters::Residual => if self.residual {
                1
            } else {
                0
            },
        }
    }

    /// Read the value stored under `key`.
    pub fn get(&self, key: Parameters) -> (r: i64)
        requires
            self.max_match1 <= 0x8000_0000,
            self.max_match2 <= 0x8000_0000,
            self.block_size <= 0x8000_0000,
            self.step1 <= 0x8000_0000,
            self.step2 <= 0x8000_0000,
            self.window1 <= 0x8000_0000,
            self.window2 <= 0x8000_0000,
        ensures
            r == self.get_spec(key),
    {
        match key {
            Parameters::Sigma => self.sigma_q8 as i64,
            Parameters::Lamb2D => self.lambda2d_q8 as i64,
            Parameters::Lamb3D => self.lambda3d_q8 as i64,
            Parameters::KaiserWindowBeta => self.kaiser_beta_q8 as i64,
            Parameters::Step1ThresholdDist => self.tau1 as i64,
            Parameters::Step1MaxMatch => self.max_match1 as i64,
            Parameters::Step1BlockSize => self.block_size as i64,
            Parameters::Step1SpeedupFactor => self.step1 as i64,
            Parameters::Step1WindowSize => self.window1 as i64,
            Parameters::Step2ThresholdDist => self.tau2 as i64,
            Parameters::Step2MaxMatch => self.max_match2 as i64,
            Parameters::Step2BlockSize => self.block_size as i64,
            Parameters::Step2SpeedupFactor => self.step2 as i64,
            Parameters::Step2WindowSize => self.window2 as i64,
            Parameters::LuminanceOnly => if self.luminance_only {
                1
            } else {
                0
            },
            Parameters::Mix => self.mix_q8 as i64,
            Parameters::Residual => if self.residual {
                1
            } else {
                0
            },
        }
    }
}

/// The compact configuration used by the color helpers.
#[derive(Debug, Clone, Copy, PartialEq, Eq, Structural)]
pub struct Bm3d {
    /// Noise standard deviation, 8.8 fixed point.
    pub sigma: u32,
    /// Threshold weight, 8.8 fixed point.
    pub lambda: u32,
    /// Patch side.
    pub patch_size: usize,
    /// Search window side.
    pub search_window: usize,
    /// Denoise only the luminance channel.
    pub luminance_only: bool,
    /// Blend factor between input and denoised output, 0..=256.
    pub mix: u32,
}

/// Luminance of `(r, g, b)` under the BT.601 integer approximation.
pub open spec fn ycbcr_y_spec(r: int, g: int, b: int) -> int {
    crate::fixed::clamp_spec((66 * r + 129 * g + 25 * b + 128) / 256 + 16, 0, 255)
}

/// Blue-difference chroma of `(r, g, b)`.
pub open spec fn ycbcr_cb_spec(r: int, g: int, b: int) -> int {
    crate::fixed::clamp_spec((-38 * r - 74 * g + 112 * b + 128) / 256 + 128, 0, 255)
}

/// Red-difference chroma of `(r, g, b)`.
pub open spec fn ycbcr_cr_spec(r: int, g: int, b: int) -> int {
    crate::fixed::clamp_spec((112 * r - 94 * g - 18 * b + 128) / 256 + 128, 0, 255)
}

/// Red channel of `(y, cb, cr)` under the matching inverse approximation.
pub open spec fn rgb_r_spec(y: int, cb: int, cr: int) -> int {
    crate::fixed::clamp_spec((298 * (y - 16) + 409 * (cr - 128) + 128) / 256, 0, 255)
}

/// Green channel of `(y, cb, cr)`.
pub open spec fn rgb_g_spec(y: int, cb: int, cr: int) -> int {
    crate::fixed::clamp_spec(
        (298 * (y - 16) - 100 * (cb - 128) - 208 * (cr - 128) + 128) / 256,
        0,
        255,
    )
}

/// Blue channel of `(y, cb, cr)`.
pub open spec fn rgb_b_spec(y: int, cb: int, cr: int) -> int {
    crate::fixed::clamp_spec((298 * (y - 16) + 516 * (cb - 128) + 128) / 256, 0, 255)
}

/// Floor division by 256 on a small signed value.
fn div256(v: i32) -> (r: i32)
    requires
        -0x10_0000 <= v <= 0x10_0000,
    ensures
        r as int == v as int / 256,
{
    match v.checked_div_euclid(256) {
        Some(q) => q,
        None => 0,  // unreachable: the divisor is positive and v is bounded
    }
}

/// Clamp a small signed value into `0..=255` and narrow it to a byte.
fn clamp_u8(v: i32) -> (r: u8)
    ensures
        r as int == crate::fixed::clamp_spec(v as int, 0, 255),
{
    if v < 0 {
        0
    } else if v > 255 {
        255
    } else {
        v as u8
    }
}

impl Bm3d {
    /// Construct a compact configuration.
    pub fn new(
        sigma: u32,
        lambda: u32,
        patch_size: usize,
        search_window: usize,
        luminance_only: bool,
        mix: u32,
    ) -> (r: Self)
        ensures
            r == (Bm3d { sigma, lambda, patch_size, search_window, luminance_only, mix }),
    {
        Self { sigma, lambda, patch_size, search_window, luminance_only, mix }
    }

    /// Convert one RGB pixel to Y'CbCr with integer arithmetic.  When the
    /// configuration asks for luminance only, the chroma samples are zeroed.
    pub fn rgb_to_ycbcr_fast(&self, r: u8, g: u8, b: u8) -> (out: (u8, u8, u8))
        ensures
            out.0 as int == ycbcr_y_spec(r as int, g as int, b as int),
            self.luminance_only ==> out.1 == 0 && out.2 == 0,
            !self.luminance_only ==> out.1 as int == ycbcr_cb_spec(r as int, g as int, b as int)
                && out.2 as int == ycbcr_cr_spec(r as int, g as int, b as int),
    {
        let r = r as i32;
        let g = g as i32;
        let b = b as i32;

        let y = div256(66 * r + 129 * g + 25 * b + 128) + 16;
        let cb = div256(112 * b + 128 - 38 * r - 74 * g) + 128;
        let cr = div256(112 * r - 94 * g - 18 * b + 128) + 128;

        if self.luminance_only {
            (clamp_u8(y), 0, 0)
        } else {
            (clamp_u8(y), clamp_u8(cb), clamp_u8(cr))
        }
    }

    /// Convert one Y'CbCr pixel back to RGB with integer arithmetic.
    pub fn ycbcr_to_rgb_fast(&self, y: u8, cb: u8, cr: u8) -> (out: (u8, u8, u8))
        ensures
            out.0 as int == rgb_r_spec(y as int, cb as int, cr as int),
            out.1 as int == rgb_g_spec(y as int, cb as int, cr as int),
            out.2 as int == rgb_b_spec(y as int, cb as int, cr as int),
    {
        let c = y as i32 - 16;
        let d = cb as i32 - 128;
        let e = cr as i32 - 128;

        let r = div256(298 * c + 409 * e + 128);
        let g = div256(298 * c - 100 * d - 208 * e + 128);
        let b = div256(298 * c + 516 * d + 128);
        (clamp_u8(r), clamp_u8(g), clamp_u8(b))
    }
}

} // verus!
