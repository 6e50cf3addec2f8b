//! Verified core of a real-time voice bridge between a telephony media stream
//! and a conversational agent: audio codec and DSP, voice-activity detection,
//! text handling, session continuity, call registry and the per-call media
//! session state machine.

pub mod codec;
pub mod wav;
pub mod text;
pub mod greeting;
pub mod dsp;
pub mod vad;
pub mod frames;
pub mod registry;
pub mod session;
pub mod api;
pub mod config;
pub mod engine;
pub mod errors;
