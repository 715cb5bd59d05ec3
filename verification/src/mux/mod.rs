//! Container muxers (ISO-BMFF, MPEG-TS, Ogg, WebM) and their byte-level builders.

pub mod boxes;
pub mod fmp4;
pub mod fourcc;
pub mod mp4;
pub mod ogg;
pub mod ts;
pub mod webm;
