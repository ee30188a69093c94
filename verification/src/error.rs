//! Error types for the denoising pipeline.

use vstd::prelude::*;

verus! {

/// Central error type for image processing operations.
#[derive(Debug, Clone, Copy, PartialEq, Eq)]
pub enum ImageProcessingError {
    /// Error in color conversion.
    ColorConversionError,
    /// Error in the discrete cosine transform.
    DctError,
    /// Error in the across-stack wavelet transform.
    WaveletError,
    /// Invalid parameter, e.g. window size, threshold.
    InvalidParameter(&'static str),
    /// Access out of bounds, e.g. pixel index, patch index.
    OutOfBounds(&'static str),
    /// Unsupported image format.
    UnsupportedFormat(&'static str),
    /// Other error.
    Other(&'static str),
}

impl ImageProcessingError {
    /// Numeric code of the error kind, as reported to external callers.
    pub fn code(&self) -> (r: u32)
        ensures
            r == match *self {
                ImageProcessingError::ColorConversionError => 0u32,
                ImageProcessingError::DctError => 1u32,
                ImageProcessingError::WaveletError => 2u32,
                _ => 999u32,
            },
    {
        match self {
            ImageProcessingError::ColorConversionError => 0,
            ImageProcessingError::DctError => 1,
            ImageProcessingError::WaveletError => 2,
            _ => 999,
        }
    }

    /// Inverse of `code` for the codes that denote a unique error.
    pub fn try_from_code(value: u32) -> (r: Result<Self, &'static str>)
        ensures
            value == 0 ==> r == Ok::<Self, &'static str>(
                ImageProcessingError::ColorConversionError,
            ),
            value == 1 ==> r == Ok::<Self, &'static str>(ImageProcessingError::DctError),
            value == 2 ==> r == Ok::<Self, &'static str>(ImageProcessingError::WaveletError),
            value > 2 ==> r.is_err(),
    {
        match value {
            0 => Ok(ImageProcessingError::ColorConversionError),
            1 => Ok(ImageProcessingError::DctError),
            2 => Ok(ImageProcessingError::WaveletError),
            _ => Err("Code error not valid"),
        }
    }

    /// Human-readable description of the error kind.
    pub fn message(&self) -> (r: &'static str)
        ensures
            self is InvalidParameter ==> r == self->InvalidParameter_0,
            self is OutOfBounds ==> r == self->OutOfBounds_0,
            self is UnsupportedFormat ==> r == self->UnsupportedFormat_0,
            self is Other ==> r == self->Other_0,
    {
        match self {
            ImageProcessingError::ColorConversionError => "Error in color conversion",
            ImageProcessingError::DctError => "Error in discrete cosine transform (DCT)",
            ImageProcessingError::WaveletError => "Error in wavelet transform",
            ImageProcessingError::InvalidParameter(param) => param,
            ImageProcessingError::OutOfBounds(context) => context,
            ImageProcessingError::UnsupportedFormat(fmt) => fmt,
            ImageProcessingError::Other(msg) => msg,
        }
    }
}

/// Error type of the final blending step.
#[derive(Debug, Clone, Copy, PartialEq, Eq)]
pub enum Bm3dError {
    /// The blend factor lies outside the accepted fixed-point range.
    InvalidMixFactor(u32),
    /// The two buffers to blend have different lengths.
    DimensionMismatch { a: usize, b: usize },
    /// A lower-level image processing step failed.
    ImageProcessingError,
}

/// Error type of aggregation helpers; mirrors `Bm3dError`.
#[derive(Debug, Clone, Copy, PartialEq, Eq)]
pub enum AggError {
    /// The blend factor lies outside the accepted fixed-point range.
    InvalidMixFactor(u32),
    /// The two buffers to blend have different lengths.
    DimensionMismatch { a: usize, b: usize },
    /// A lower-level image processing step failed.
    ImageProcessingError,
}

} // verus!
