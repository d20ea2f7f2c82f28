//! Core logic for a screen-streaming tool on compositing window systems:
//! capture-region geometry, per-output intersection, frame compositing, and
//! the pull-driven frame pump that feeds a downstream media sink.

pub mod flags;
pub mod geometry;
pub mod compositor;
pub mod intersect;
pub mod pump;

use vstd::prelude::*;

verus! {

/// The error kinds of the capture path.
///
/// `InvalidGeometry` and `NoIntersectingOutputs` arise from configuration,
/// before any frame is produced; `CaptureFailure` and `SinkFailure` arise
/// while streaming.
#[derive(Clone, Copy, PartialEq, Eq, Structural, Debug)]
pub enum StreamError {
    InvalidGeometry,
    NoIntersectingOutputs,
    CaptureFailure,
    SinkFailure,
}

impl StreamError {
    /// True for errors that indicate misconfiguration detected before
    /// streaming starts, as opposed to runtime failures of the environment.
    pub fn is_configuration_error(&self) -> (r: bool)
        ensures
            r == (*self == StreamError::InvalidGeometry
                || *self == StreamError::NoIntersectingOutputs),
    {
        match self {
            StreamError::InvalidGeometry => true,
            StreamError::NoIntersectingOutputs => true,
            StreamError::CaptureFailure => false,
            StreamError::SinkFailure => false,
        }
    }

    /// A fixed diagnostic line for each error kind.
    pub fn message(&self) -> (m: &'static str)
        ensures
            *self == StreamError::InvalidGeometry ==> m@ == "invalid capture geometry"@,
            *self == StreamError::NoIntersectingOutputs ==> m@
                == "capture region does not intersect any output"@,
            *self == StreamError::CaptureFailure ==> m@ == "output capture failed"@,
            *self == StreamError::SinkFailure ==> m@ == "downstream sink failed"@,
    {
        match self {
            StreamError::InvalidGeometry => "invalid capture geometry",
            StreamError::NoIntersectingOutputs => "capture region does not intersect any output",
            StreamError::CaptureFailure => "output capture failed",
            StreamError::SinkFailure => "downstream sink failed",
        }
    }
}

} // verus!
