//! Error kinds shared by the matcher, the planner and the player.
//!
//! Every failure is reported as a value of [`Error`]; no core routine
//! terminates the process.

use vstd::prelude::*;

verus! {

/// The recoverable failures of the automation core.
#[derive(Clone, Copy, Debug, PartialEq, Eq, Structural)]
pub enum Error {
    /// The requested confidence threshold lies outside `[0, 1]`.
    InvalidConfidence,
    /// The needle image is wider or taller than the haystack image.
    NeedleTooLarge,
    /// The sampling stride exceeds the haystack's pixel count.
    StrideTooLarge,
    /// The scan evaluated no candidate position at all.
    NoMatchFound,
    /// A coordinate cannot be represented in the pointer provider's
    /// numeric range.
    ConversionError,
    /// The capture provider failed to deliver a frame.
    CaptureError,
    /// The persistence collaborator failed to store an image.
    SaveError,
}

} // verus!
