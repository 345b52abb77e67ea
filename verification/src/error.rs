//! Why a tick produced no reading.

use vstd::prelude::*;

verus! {

/// The ways in which a stage of the pipeline fails.
#[derive(Clone, Copy, Debug, PartialEq, Eq, Structural)]
pub enum ReadError {
    /// No window of the target application is open and not minimized.
    WindowNotFound,
    /// The capture could not be taken, or does not hold the requested region.
    CaptureFailure,
    /// The region shows no pixel in the colour of the numerals.
    MaskEmpty,
    /// The recognition engine reported an error.
    OcrFailure,
    /// The recognised text is not a clean non-negative integer.
    UnparseableResult,
}

impl ReadError {
    /// A short description for the log.
    pub fn message(&self) -> (text: &'static str)
        ensures
            text@ == match self {
                ReadError::WindowNotFound => "target window is not open, or is minimized"@,
                ReadError::CaptureFailure => "the region could not be captured"@,
                ReadError::MaskEmpty => "no numeral is visible in the region"@,
                ReadError::OcrFailure => "the recognition engine failed"@,
                ReadError::UnparseableResult => "the recognised text is not a number"@,
            },
    {
        match self {
            ReadError::WindowNotFound => "target window is not open, or is minimized",
            ReadError::CaptureFailure => "the region could not be captured",
            ReadError::MaskEmpty => "no numeral is visible in the region",
            ReadError::OcrFailure => "the recognition engine failed",
            ReadError::UnparseableResult => "the recognised text is not a number",
        }
    }
}

} // verus!
