//! Core of a two-deck DJ mixing engine.
//!
//! The engine mixes two PCM decks through a constant-power crossfader,
//! applies per-deck three-band EQ with kill switches, tempo resampling,
//! looping, microphone talkover, level metering with peak hold, and
//! multi-channel output routing.  A companion beat tracker derives a
//! constant-tempo beat grid from onset-detection curves.
//!
//! All audio amplitudes and gains are fixed-point integers in millionths
//! of full scale, so that every processing step carries a proved contract.

pub mod beat;
pub mod crossfade;
pub mod deck;
pub mod decode;
pub mod engine;
pub mod eq;
pub mod fixed;
pub mod meter;
pub mod mic;
pub mod queue;
pub mod record;
pub mod ring;
pub mod router;
pub mod stretch;

pub use fixed::UNIT;
