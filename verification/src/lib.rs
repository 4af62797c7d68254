//! Frame-by-frame motion detection built as a two-stage cascade: a cheap
//! coarse change statistic gates a more expensive refined detector.
//!
//! The library holds the verified core of the pipeline: rolling-window
//! statistics, frame-buffer bookkeeping, the coarse mean-absolute-difference
//! detector, the refined detector's contour accounting, grid subdivision with
//! exact tiling, overlay box selection, and the gating state machine.

use vstd::prelude::*;

mod coarse;
mod frames;
mod grid;
mod image;
mod overlay;
mod pipeline;
mod ratio;
mod refined;
mod rolling;
mod stopwatch;

pub use coarse::MeanSquaredError;
pub use frames::{DerivedFrames, Frame, FrameSamples, VideoFrames};
pub use grid::{MseSubdivide, Region};
pub use refined::{contour_area, contours_total_area, filter_and_sort_boxes, BoundingBox, MotionMog2, Point};
pub use image::{absdiff, mul_saturating, tint, Image};
pub use overlay::MotionOverlay;
pub use pipeline::{frame_skip, is_video_extension, CycleState, DetectionCycle, FrameDecimator, VideoConfig};
pub use ratio::Ratio;
pub use rolling::RollingWindow;
pub use stopwatch::{format_duration_ms, u64_to_string, StopWatch};

verus! {

/// Errors raised by the detection pipeline.
///
/// `EndOfStream` is terminal only to the current video session; it is raised
/// when the frame source yields no data. `ProcessingError` marks a primitive
/// operation applied to malformed or mismatched buffers and is fatal to the
/// in-progress session.
#[derive(Clone, Copy, Debug, PartialEq, Eq, Structural)]
pub enum PipelineError {
    EndOfStream,
    ProcessingError,
}

} // verus!
