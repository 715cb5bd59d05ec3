//! The library's error type.

use vstd::prelude::*;

verus! {

/// Errors surfaced by the engine.
#[derive(Debug)]
pub enum Error {
    /// Video container / codec failure.
    Video(String),
    /// Audio codec failure.
    Audio(String),
    /// The input format is not recognised or supported.
    UnsupportedFormat(String),
    /// A filter or encoder rejected its input.
    Filter(String),
    /// A referenced object does not exist.
    NotFound(String),
    /// A frame or canvas with a zero dimension.
    InvalidDimensions { width: u32, height: u32 },
    /// The pixel format is not supported by the operation.
    UnsupportedPixelFormat,
    /// An image codec failed.
    Image(String),
}

impl Error {
    /// This is a video error with message `m`.
    pub open spec fn is_video(self, m: Seq<char>) -> bool {
        self matches Error::Video(s) && s@ == m
    }

    /// This is an unsupported-format error with message `m`.
    pub open spec fn is_unsupported(self, m: Seq<char>) -> bool {
        self matches Error::UnsupportedFormat(s) && s@ == m
    }

    /// This is an audio error with message `m`.
    pub open spec fn is_audio(self, m: Seq<char>) -> bool {
        self matches Error::Audio(s) && s@ == m
    }

    /// This is an image-codec error with message `m`.
    pub open spec fn is_image(self, m: Seq<char>) -> bool {
        self matches Error::Image(s) && s@ == m
    }

    /// This is a not-found error with message `m`.
    pub open spec fn is_not_found(self, m: Seq<char>) -> bool {
        self matches Error::NotFound(s) && s@ == m
    }

    /// This is a filter error with message `m`.
    pub open spec fn is_filter(self, m: Seq<char>) -> bool {
        self matches Error::Filter(s) && s@ == m
    }
}

} // verus!
