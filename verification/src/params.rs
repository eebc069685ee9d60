//! What a caller sets and gets: speech parameters, limits, audio, events.

use vstd::prelude::*;

verus! {

/// Output sample rate of the engine in Hz.
pub const SAMPLE_RATE: u32 = 22050;

/// Parameters controlling speech synthesis.
///
/// All values are percentages of the default rate. Out-of-range values are
/// clamped by the engine.
#[derive(Debug, Clone, Copy, PartialEq, Eq, Structural)]
pub struct SpeechParams {
    /// Speaking speed (50-400, default 100).
    pub speed: i32,
    /// Voice pitch (50-200, default 100).
    pub pitch: i32,
    /// Output volume (0-100, default 80).
    pub volume: i32,
}

impl Default for SpeechParams {
    fn default() -> (params: SpeechParams)
        ensures
            params == (SpeechParams { speed: 100, pitch: 100, volume: 80 }),
    {
        SpeechParams { speed: 100, pitch: 100, volume: 80 }
    }
}

/// A chunk of audio samples delivered during streaming synthesis.
#[derive(Debug, Clone)]
pub struct AudioChunk {
    /// Signed 16-bit PCM samples, mono.
    pub samples: Vec<i16>,
    /// Sample rate in Hz (always [`SAMPLE_RATE`]).
    pub sample_rate: u32,
}

/// Events delivered during streaming synthesis.
#[derive(Debug, Clone)]
pub enum SpeechEvent {
    /// A chunk of audio samples (typically about 90 ms of audio).
    Audio(AudioChunk),
    /// Synthesis of the utterance is complete.
    Done,
}

/// Limits for a single synthesis call, preventing runaway processing.
#[derive(Debug, Clone, Copy, PartialEq, Eq, Structural)]
pub struct SynthesisLimits {
    /// Maximum audio duration in seconds (default 300, five minutes).
    pub max_duration_secs: u32,
    /// Number of consecutive iterations without output before stopping
    /// (default 200).
    pub max_idle_iterations: u32,
}

impl Default for SynthesisLimits {
    fn default() -> (limits: SynthesisLimits)
        ensures
            limits == (SynthesisLimits { max_duration_secs: 300, max_idle_iterations: 200 }),
    {
        SynthesisLimits { max_duration_secs: 300, max_idle_iterations: 200 }
    }
}

} // verus!
