//! A verified text-to-speech synthesis core: a user dictionary with
//! order-preserving persistence, a voice-model registry routing style ids
//! to loaded models, and a deterministic multi-stage synthesis pipeline
//! from text or phonetic notation to a PCM waveform.
use vstd::prelude::*;

pub mod error;
pub mod text;
pub mod word;
pub mod dict;
pub mod query;
pub mod kana;
pub mod model;
pub mod registry;
pub mod analyzer;
pub mod synth;

verus! {

/// Scale factor for fixed-point prosody scalars: a stored value of
/// `SCALE_ONE` stands for the real factor 1.0.
pub const SCALE_ONE: u32 = 1000;

} // verus!
