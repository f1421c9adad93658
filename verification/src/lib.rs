//! Voice-activity detection: a verified segmentation core.
//!
//! A stream of per-frame speech probabilities is turned into discrete speech
//! segments by a hysteresis state machine with configurable threshold,
//! minimum silence duration and trailing padding; a duration filter
//! post-processes the whole-file path.  The neural probability predictor,
//! audio file I/O and model management are external collaborators and live
//! outside this crate's verified core.
//!
//! Times are integer milliseconds, probabilities fixed-point millionths and
//! audio 16-bit PCM samples, so every contract here is exact: see
//! [`vad`] for the engine and its laws, [`utils`] for extracting or removing
//! the audio that detected segments cover.

use vstd::prelude::*;

pub mod utils;
pub mod vad;

pub use vad::SpeechTimestamps;
pub use vad::VADIterator;

verus! {

/// Languages for which voice-activity models are published.
#[derive(Debug, Clone, Copy, PartialEq, Eq)]
pub enum Language {
    /// Russian language model
    Russian,
    /// English language model
    English,
    /// German language model
    German,
    /// Spanish language model
    Spanish,
}

/// Error taxonomy of the voice-activity pipeline.
///
/// `InvalidInput` covers wrong frame lengths, unsupported sample rates and
/// out-of-bounds timestamps; it is always raised before any state mutation.
/// `PredictionFailure` stands for a failed probability-predictor call; the
/// caller may retry the same frame, since the engine state is untouched.
#[derive(Debug, Clone, Copy, PartialEq, Eq, Structural)]
pub enum Error {
    /// Invalid input parameters or data
    InvalidInput,
    /// The probability predictor reported a failure
    PredictionFailure,
}

} // verus!
