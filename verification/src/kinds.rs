//! Small vocabulary types shared across the engine: audio formats, EQ band
//! kinds and layer blend modes.

use vstd::prelude::*;

verus! {

/// Supported audio container/codec formats.
#[derive(Debug, Clone, Copy, PartialEq, Eq, Structural)]
pub enum AudioFormat {
    Wav,
    Mp3,
    Flac,
    Vorbis,
}

/// The kind of a parametric-EQ band.
#[derive(Debug, Clone, Copy, PartialEq, Eq, Structural)]
pub enum EqKind {
    Peaking,
    LowShelf,
    HighShelf,
    LowPass,
    HighPass,
}

/// How a clip's pixels combine with the layers beneath it.
#[derive(Debug, Clone, Copy, PartialEq, Eq, Structural)]
pub enum BlendMode {
    Normal,
    Multiply,
    Screen,
    Overlay,
    Darken,
    Lighten,
    HardLight,
    SoftLight,
    Difference,
    Exclusion,
    Add,
}

impl Default for BlendMode {
    fn default() -> (r: Self)
        ensures
            r == BlendMode::Normal,
    {
        BlendMode::Normal
    }
}

impl BlendMode {
    /// True for the default pass-through mode.
    pub fn is_normal(&self) -> (r: bool)
        ensures
            r == (*self == BlendMode::Normal),
    {
        match self {
            BlendMode::Normal => true,
            _ => false,
        }
    }
}

} // verus!
