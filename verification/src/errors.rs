//! Failure kinds of a capture session.

use vstd::prelude::*;

verus! {

/// Everything that can end a capture session other than a completed image.
///
/// `Cancelled` is not an error in the ordinary sense: it reports that the
/// caller asked the session to stop, distinctly from success.
#[derive(Clone, Copy, Debug, PartialEq, Eq, Structural)]
pub enum CaptureError {
    /// No display or pixel source was available; fatal.
    AcquisitionFailed,
    /// A rectangle string could not be parsed; recovered locally by falling
    /// back to full-screen capture.
    InvalidRegion,
    /// A crop rectangle did not fit inside the captured raster; recovered
    /// locally the same way.
    RegionOutOfBounds,
    /// An external recorder or extractor process failed; fatal.
    ExternalToolFailed,
    /// The caller requested a stop before the session completed.
    Cancelled,
    /// The stitcher was handed an empty frame sequence.
    NoFramesProduced,
    /// The frames cannot be stitched: they disagree in width or height, the
    /// overlap is taller than a frame, or the output would not fit in memory.
    FrameSizeMismatch,
}

impl CaptureError {
    /// A short fixed description of the failure, for status displays.
    pub fn describe(&self) -> (s: &'static str)
        ensures
            s@ == self.spec_describe(),
    {
        match self {
            CaptureError::AcquisitionFailed => "no display available for capture",
            CaptureError::InvalidRegion => "malformed crop rectangle",
            CaptureError::RegionOutOfBounds => "crop rectangle outside captured bounds",
            CaptureError::ExternalToolFailed => "external recorder failed",
            CaptureError::Cancelled => "capture cancelled",
            CaptureError::NoFramesProduced => "no frames to stitch",
            CaptureError::FrameSizeMismatch => "frame sizes do not match",
        }
    }

    pub open spec fn spec_describe(self) -> Seq<char> {
        match self {
            CaptureError::AcquisitionFailed => "no display available for capture"@,
            CaptureError::InvalidRegion => "malformed crop rectangle"@,
            CaptureError::RegionOutOfBounds => "crop rectangle outside captured bounds"@,
            CaptureError::ExternalToolFailed => "external recorder failed"@,
            CaptureError::Cancelled => "capture cancelled"@,
            CaptureError::NoFramesProduced => "no frames to stitch"@,
            CaptureError::FrameSizeMismatch => "frame sizes do not match"@,
        }
    }
}

} // verus!
