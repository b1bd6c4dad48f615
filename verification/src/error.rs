//! The error taxonomy of the engine: validation, not-found, conflict,
//! format and parse errors. Every error is recoverable at the call
//! boundary; no operation leaves shared state half-changed.
use vstd::prelude::*;

verus! {

/// Which class of the taxonomy an error belongs to.
#[derive(Clone, Copy, PartialEq, Eq, Structural, Debug)]
pub enum ErrorKind {
    /// A malformed field or an unknown enumeration string, rejected
    /// before any mutation.
    Validation,
    /// An unknown style id, model id, or dictionary entry id.
    NotFound,
    /// A model id or style id collision; the losing operation is rolled
    /// back as a whole.
    Conflict,
    /// Unreadable or corrupt persisted data.
    Format,
    /// Malformed phonetic notation.
    Parse,
}

/// An error of the engine. Variants that reject a received value carry
/// that value, so the caller sees what was refused.
#[derive(Debug)]
pub enum VvError {
    /// An acceleration-mode string other than AUTO, CPU or GPU.
    UnknownAccelerationMode(String),
    /// A word-type string other than the five recognized ones.
    UnknownWordType(String),
    /// A word whose surface is empty.
    EmptySurface,
    /// A pronunciation holding a character outside the kana alphabet.
    PronunciationNotKana,
    /// An accent type above the pronunciation's mora count; carries the
    /// offending accent type and the bound it exceeded.
    AccentTypeOutOfRange(u64, u64),
    /// An accent type below zero.
    NegativeAccentType,
    /// A freshly drawn entry id collided with one already present.
    IdCollision(u128),
    /// A dictionary entry id that is not present.
    WordNotFound(u128),
    /// A style id that no loaded model routes.
    StyleNotFound(u32),
    /// A model id that is not loaded.
    ModelNotFound,
    /// A model id that is already loaded.
    ModelAlreadyLoaded,
    /// A style id already routed to a different model; carries the id.
    StyleConflict(u32),
    /// Corrupt persisted dictionary or model data.
    InvalidData,
    /// Malformed phonetic notation: an unknown symbol, a misplaced or
    /// repeated accent marker, or an empty accent phrase.
    InvalidNotation,
    /// A prosody scalar that must be positive was zero.
    ZeroScale,
}

impl VvError {
    /// The taxonomy class of this error.
    pub open spec fn spec_kind(&self) -> ErrorKind {
        match self {
            VvError::UnknownAccelerationMode(_) => ErrorKind::Validation,
            VvError::UnknownWordType(_) => ErrorKind::Validation,
            VvError::EmptySurface => ErrorKind::Validation,
            VvError::PronunciationNotKana => ErrorKind::Validation,
            VvError::AccentTypeOutOfRange(_, _) => ErrorKind::Validation,
            VvError::NegativeAccentType => ErrorKind::Validation,
            VvError::IdCollision(_) => ErrorKind::Conflict,
            VvError::WordNotFound(_) => ErrorKind::NotFound,
            VvError::StyleNotFound(_) => ErrorKind::NotFound,
            VvError::ModelNotFound => ErrorKind::NotFound,
            VvError::ModelAlreadyLoaded => ErrorKind::Conflict,
            VvError::StyleConflict(_) => ErrorKind::Conflict,
            VvError::InvalidData => ErrorKind::Format,
            VvError::InvalidNotation => ErrorKind::Parse,
            VvError::ZeroScale => ErrorKind::Validation,
        }
    }

    pub fn kind(&self) -> (r: ErrorKind)
        ensures
            r == self.spec_kind(),
    {
        match self {
            VvError::UnknownAccelerationMode(_) => ErrorKind::Validation,
            VvError::UnknownWordType(_) => ErrorKind::Validation,
            VvError::EmptySurface => ErrorKind::Validation,
            VvError::PronunciationNotKana => ErrorKind::Validation,
            VvError::AccentTypeOutOfRange(_, _) => ErrorKind::Validation,
            VvError::NegativeAccentType => ErrorKind::Validation,
            VvError::IdCollision(_) => ErrorKind::Conflict,
            VvError::WordNotFound(_) => ErrorKind::NotFound,
            VvError::StyleNotFound(_) => ErrorKind::NotFound,
            VvError::ModelNotFound => ErrorKind::NotFound,
            VvError::ModelAlreadyLoaded => ErrorKind::Conflict,
            VvError::StyleConflict(_) => ErrorKind::Conflict,
            VvError::InvalidData => ErrorKind::Format,
            VvError::InvalidNotation => ErrorKind::Parse,
            VvError::ZeroScale => ErrorKind::Validation,
        }
    }

    /// A short description, usable where the host wants a message.
    pub fn describe(&self) -> (r: &'static str)
    {
        match self {
            VvError::UnknownAccelerationMode(_) => "unknown acceleration mode",
            VvError::UnknownWordType(_) => "unknown word type",
            VvError::EmptySurface => "word surface is empty",
            VvError::PronunciationNotKana => "pronunciation is not kana",
            VvError::AccentTypeOutOfRange(_, _) => "accent type exceeds mora count",
            VvError::NegativeAccentType => "accent type is negative",
            VvError::IdCollision(_) => "generated id is already present",
            VvError::WordNotFound(_) => "no word with that id",
            VvError::StyleNotFound(_) => "no loaded model routes that style",
            VvError::ModelNotFound => "no model with that id is loaded",
            VvError::ModelAlreadyLoaded => "a model with that id is already loaded",
            VvError::StyleConflict(_) => "style id already routed to another model",
            VvError::InvalidData => "persisted data is corrupt",
            VvError::InvalidNotation => "malformed phonetic notation",
            VvError::ZeroScale => "prosody scale must be positive",
        }
    }
}

} // verus!
