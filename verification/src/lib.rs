//! Yuri, offline text-to-speech on a WebAssembly engine: the host side.
//!
//! The engine is a guest that runs in a WebAssembly runtime. This library
//! decides what the guest is called with, what its calls to the host come to,
//! and what becomes of the audio. A program around it runs the guest, reads
//! and writes files, and plays the sound.
//!
//! - [`params`]: speech parameters, limits, audio and events.
//! - [`speech`]: speaking a text; [`guest`]: setting the engine up.
//! - [`dispatch`], [`syscalls`], [`runtime`]: what the guest calls, over the
//!   host's [`state`] and the guest's [`memory`]; [`host`] keeps both together.
//! - [`documents`] and [`json`]: the JSON that host and guest exchange.
//! - [`voices`], [`addon`], [`install`], [`engine`]: where voice and engine
//!   come from.
//! - [`cli`], [`escape`], [`wav`]: the command line, its text and its files.
//! - [`num`], [`text`], [`utf16`]: numbers and characters.

pub mod addon;
pub mod cli;
pub mod dispatch;
pub mod documents;
pub mod engine;
pub mod escape;
pub mod guest;
pub mod host;
pub mod install;
pub mod json;
pub mod memory;
pub mod num;
pub mod params;
pub mod runtime;
pub mod speech;
pub mod state;
pub mod syscalls;
pub mod text;
pub mod utf16;
pub mod voices;
pub mod wav;

pub use engine::Engine;
pub use params::AudioChunk;
pub use params::SpeechEvent;
pub use params::SpeechParams;
pub use params::SynthesisLimits;
pub use params::SAMPLE_RATE;
pub use speech::Voice;
